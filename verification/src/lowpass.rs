use vstd::prelude::*;
use crate::buffer::{all_in_range, in_range, Buffer, SCALE};
use crate::sample::{clamp_samples, interp};

verus! {

/// The fixed-point filter coefficient for a cutoff frequency at a sample
/// rate: 2 pi f / (rate + 2 pi f), with pi approximated by 355/113, and
/// never a full unit.
pub fn filter_alpha(cutoff_hz: u32, rate: u64) -> (r: u64)
    requires
        1 <= rate <= crate::buffer::MAX_RATE as u64,
    ensures
        r < SCALE as u64,
{
    let num: u64 = 710 * (cutoff_hz as u64);
    proof {
        assert(710int * (cutoff_hz as int) <= 710int * 0xffff_ffff) by (nonlinear_arith)
            requires
                cutoff_hz <= 0xffff_ffffu32,
        ;
    }
    let den: u64 = 113 * rate + num;
    if num == 0 {
        return 0;
    }
    let w: u128 = (num as u128) * (SCALE as u128);
    let q: u128 = w / (den as u128);
    proof {
        vstd::arithmetic::div_mod::lemma_div_pos_is_pos(w as int, den as int);
        // num < den, so num * SCALE / den < SCALE
        assert((num as int) * (SCALE as int) < (den as int) * (SCALE as int))
            by (nonlinear_arith)
            requires
                (num as int) < (den as int),
                SCALE as int >= 1,
        ;
        vstd::arithmetic::div_mod::lemma_multiply_divide_lt(
            w as int,
            den as int,
            SCALE as int,
        );
    }
    q as u64
}

/// A one-pole lowpass: each output sample blends the input with the
/// previous output on its channel by the coefficient alpha, then the
/// buffer is soft-clamped.
pub fn lowpass(a: &Buffer, cutoff_hz: u32) -> (r: Buffer)
    requires
        a.wf(),
    ensures
        r.wf(),
        r.fmt == a.fmt,
        r.samples@.len() == a.samples@.len(),
{
    let alpha = filter_alpha(cutoff_hz, a.fmt.sample_rate as u64);
    let c = a.fmt.channels;
    let n = a.samples.len();
    let mut y_prev: Vec<i64> = Vec::new();
    let mut ch: usize = 0;
    while ch < c
        invariant
            ch <= c,
            y_prev@.len() == ch,
            forall|j: int| 0 <= j < ch ==> in_range(#[trigger] y_prev@[j]),
        decreases c - ch,
    {
        y_prev.push(0i64);
        ch += 1;
    }
    let mut out: Vec<i64> = Vec::new();
    let mut i: usize = 0;
    while i < n
        invariant
            a.wf(),
            alpha < SCALE as u64,
            c == a.fmt.channels,
            1 <= c,
            n == a.samples@.len(),
            i <= n,
            y_prev@.len() == c,
            forall|j: int| 0 <= j < c ==> in_range(#[trigger] y_prev@[j]),
            out@.len() == i,
            forall|j: int| 0 <= j < i ==> in_range(#[trigger] out@[j]),
        decreases n - i,
    {
        let chan = i % c;
        proof {
            vstd::arithmetic::div_mod::lemma_mod_division_less_than_divisor(
                i as int,
                c as int,
            );
            vstd::arithmetic::div_mod::lemma_mod_bound(i as int, c as int);
        }
        let x = a.samples[i];
        let yp = y_prev[chan];
        let y = interp(yp, x, alpha as u128, SCALE as u128);
        out.push(y);
        y_prev.set(chan, y);
        i += 1;
    }
    clamp_samples(&mut out);
    Buffer { samples: out, fmt: a.fmt }
}

} // verus!
