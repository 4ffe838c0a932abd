use vstd::prelude::*;
use crate::buffer::{all_in_range, in_range, Buffer, SCALE};
use crate::error::Error;
use crate::sample::{abs_i, scale_sample};

verus! {

/// A feedback echo: each sample past the delay line adds the decayed
/// sample one delay earlier, hard-clipped into range.  The decay is a
/// fixed-point factor at most one.
pub fn reverb(a: &Buffer, delay_ms: u32, decay: u64) -> (r: Result<Buffer, Error>)
    requires
        a.wf(),
        decay <= SCALE as u64,
    ensures
        match r {
            Ok(out) => {
                &&& out.wf()
                &&& out.fmt == a.fmt
                &&& out.samples@.len() == a.samples@.len()
            },
            Err(_) => false,
        },
{
    let rate = a.fmt.sample_rate as u64;
    let c = a.fmt.channels as u64;
    proof {
        assert((rate as int) * (delay_ms as int) <= 0x100000int * 0xffff_ffff)
            by (nonlinear_arith)
            requires
                rate <= 0x100000,
                delay_ms <= 0xffff_ffffu32,
        ;
        assert((rate as int) * (delay_ms as int) >= 0) by (nonlinear_arith)
            requires
                rate >= 0,
                delay_ms >= 0,
        ;
    }
    let delay_frames: u64 = (rate * (delay_ms as u64)) / 1000;
    proof {
        vstd::arithmetic::div_mod::lemma_div_pos_is_pos(
            ((rate as int) * (delay_ms as int)) as int,
            1000,
        );
    }
    let mut out = crate::buffer::clone_samples(&a.samples);
    let n = out.len();
    // the offset in raw samples: whole frames, so the read stays on the
    // same channel
    if delay_frames > (n as u64) {
        return Ok(Buffer { samples: out, fmt: a.fmt });
    }
    proof {
        assert(0 <= (delay_frames as int) * (c as int) <= 0xffff_ffff_ffff_ffffint
            * 0x10000int) by (nonlinear_arith)
            requires
                0 <= delay_frames <= 0xffff_ffff_ffff_ffffu64,
                0 <= c <= 0x10000u64,
        ;
    }
    let big: u128 = (delay_frames as u128) * (c as u128);
    if big > n as u128 {
        return Ok(Buffer { samples: out, fmt: a.fmt });
    }
    let d: usize = big as usize;
    if d == 0 {
        // a zero delay would feed each sample back into itself
        return Ok(Buffer { samples: out, fmt: a.fmt });
    }
    let mut i: usize = d;
    while i < n
        invariant
            d >= 1,
            n == out@.len(),
            out@.len() == a.samples@.len(),
            d <= i <= n,
            decay <= SCALE as u64,
            all_in_range(out@),
        decreases n - i,
    {
        let prev = out[i - d];
        proof {
            assert(abs_i(prev as int) * (decay as int) <= (SCALE as int) * (SCALE as int))
                by (nonlinear_arith)
                requires
                    abs_i(prev as int) <= SCALE as int,
                    0 <= decay <= SCALE as int,
            ;
        }
        proof {
            assert(abs_i((prev as int) * (decay as int)) == abs_i(prev as int) * (
            decay as int)) by (nonlinear_arith)
                requires
                    decay >= 0,
            ;
            crate::sample::lemma_trunc_div_bound(
                (prev as int) * (decay as int),
                SCALE as int,
                SCALE as int,
            );
        }
        let echo = scale_sample(prev, decay, SCALE as u64);
        let cur = out[i];
        let mut v: i64 = cur + echo;
        if v > SCALE {
            v = SCALE;
        }
        if v < -SCALE {
            v = -SCALE;
        }
        out.set(i, v);
        i += 1;
    }
    Ok(Buffer { samples: out, fmt: a.fmt })
}

/// Reverb followed by a reversal of the echoed buffer.
pub fn reverb_reverse(a: &Buffer, delay_ms: u32, decay: u64) -> (r: Result<Buffer, Error>)
    requires
        a.wf(),
        decay <= SCALE as u64,
    ensures
        match r {
            Ok(out) => {
                &&& out.wf()
                &&& out.fmt == a.fmt
                &&& out.samples@.len() == a.samples@.len()
            },
            Err(_) => false,
        },
{
    let echoed = match reverb(a, delay_ms, decay) {
        Ok(v) => v,
        Err(e) => {
            return Err(e);
        },
    };
    Ok(crate::reverse::reverse(&echoed))
}

} // verus!
