use vstd::prelude::*;
use crate::buffer::{Buffer, MAX_SAMPLES};
use crate::error::Error;
use crate::rat::Rat;
use crate::resize::{resize, spec_resize_den, spec_resize_num};
use crate::speed::spec_new_frames;

verus! {

/// The average of two buffers' durations, in seconds:
/// (fa / ra + fb / rb) / 2.
pub open spec fn spec_avg_duration(a: Buffer, b: Buffer) -> Rat {
    Rat {
        num: ((a.spec_frames() * b.fmt.sample_rate + b.spec_frames() * a.fmt.sample_rate) as u64),
        den: ((2 * a.fmt.sample_rate * b.fmt.sample_rate) as u64),
    }
}

/// The frame count resampling x to the average duration produces.
pub open spec fn spec_avg_frames(x: Buffer, a: Buffer, b: Buffer) -> int {
    spec_new_frames(
        x.spec_frames(),
        spec_resize_num(x, spec_avg_duration(a, b)),
        spec_resize_den(x, spec_avg_duration(a, b)),
    )
}

/// Resamples both buffers to the average of their two durations, so that a
/// blender can combine them frame for frame.  Returns the two stretched
/// buffers and the common duration.  It fails exactly when both inputs are
/// empty, or a stretched result would not fit.
pub fn normalize_speed(a: &Buffer, b: &Buffer) -> (r: Result<(Buffer, Buffer, Rat), Error>)
    requires
        a.wf(),
        b.wf(),
    ensures
        match r {
            Ok((na, nb, l)) => {
                &&& na.wf()
                &&& nb.wf()
                &&& na.fmt == a.fmt
                &&& nb.fmt == b.fmt
                &&& l == spec_avg_duration(*a, *b)
                &&& l.wf()
                &&& (a.spec_frames() == 0 ==> na.samples@ == a.samples@)
                &&& (b.spec_frames() == 0 ==> nb.samples@ == b.samples@)
                &&& (a.spec_frames() > 0 ==> na.spec_frames() == spec_avg_frames(*a, *a, *b))
                &&& (b.spec_frames() > 0 ==> nb.spec_frames() == spec_avg_frames(*b, *a, *b))
            },
            Err(e) => {
                &&& e == Error::InvalidParameter
                &&& ((a.spec_frames() == 0 && b.spec_frames() == 0) || (a.spec_frames() > 0
                    && spec_avg_frames(*a, *a, *b) * (a.fmt.channels as int) > MAX_SAMPLES)
                    || (b.spec_frames() > 0 && spec_avg_frames(*b, *a, *b) * (
                b.fmt.channels as int) > MAX_SAMPLES))
            },
        },
{
    let fa = a.frames() as u64;
    let fb = b.frames() as u64;
    let ra = a.fmt.sample_rate as u64;
    let rb = b.fmt.sample_rate as u64;
    proof {
        vstd::arithmetic::div_mod::lemma_div_nonincreasing(
            a.samples@.len() as int,
            a.fmt.channels as int,
        );
        vstd::arithmetic::div_mod::lemma_div_pos_is_pos(
            a.samples@.len() as int,
            a.fmt.channels as int,
        );
        vstd::arithmetic::div_mod::lemma_div_nonincreasing(
            b.samples@.len() as int,
            b.fmt.channels as int,
        );
        vstd::arithmetic::div_mod::lemma_div_pos_is_pos(
            b.samples@.len() as int,
            b.fmt.channels as int,
        );
        assert((fa as int) * (rb as int) <= 0x40000000int * 0x100000int && (fb as int) * (
        ra as int) <= 0x40000000int * 0x100000int && 1 <= 2 * (ra as int) * (rb as int) <= 2
            * 0x100000int * 0x100000int) by (nonlinear_arith)
            requires
                fa <= 0x40000000,
                fb <= 0x40000000,
                1 <= ra <= 0x100000,
                1 <= rb <= 0x100000,
        ;
    }
    let num: u64 = fa * rb + fb * ra;
    let den: u64 = 2 * ra * rb;
    let avg = Rat { num, den };
    proof {
        // a zero average means both inputs are empty
        if num == 0 {
            assert(fa == 0 && fb == 0) by (nonlinear_arith)
                requires
                    (fa as int) * (rb as int) + (fb as int) * (ra as int) == 0,
                    ra >= 1,
                    rb >= 1,
                    fa >= 0,
                    fb >= 0,
            ;
        }
        if fa >= 1 || fb >= 1 {
            assert((fa as int) * (rb as int) + (fb as int) * (ra as int) >= 1)
                by (nonlinear_arith)
                requires
                    ra >= 1,
                    rb >= 1,
                    fa >= 0,
                    fb >= 0,
                    fa >= 1 || fb >= 1,
            ;
        }
    }
    let na = match resize(a, &avg) {
        Ok(v) => v,
        Err(e) => {
            return Err(e);
        },
    };
    let nb = match resize(b, &avg) {
        Ok(v) => v,
        Err(e) => {
            return Err(e);
        },
    };
    Ok((na, nb, avg))
}

} // verus!
