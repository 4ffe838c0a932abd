use vstd::prelude::*;
use crate::buffer::{in_range, Buffer, SCALE};
use crate::lowpass::filter_alpha;
use crate::sample::{abs_i, clamp_samples, scale_sample};

verus! {

/// A one-pole highpass with gain compensation: each output sample is
/// alpha * (previous output + input - previous input), scaled back up by
/// 2 / (1 + alpha); the two factors are folded into one fixed-point
/// coefficient below one unit.  The buffer is soft-clamped at the end.
pub fn highpass(a: &Buffer, cutoff_hz: u32) -> (r: Buffer)
    requires
        a.wf(),
    ensures
        r.wf(),
        r.fmt == a.fmt,
        r.samples@.len() == a.samples@.len(),
{
    let alpha = filter_alpha(cutoff_hz, a.fmt.sample_rate as u64);
    // gain compensation 2 S^2 / (S + alpha), folded with alpha and capped
    // strictly below one unit
    let gcomp: u64 = (2 * (SCALE as u64) * (SCALE as u64)) / ((SCALE as u64) + alpha);
    proof {
        let sc = SCALE as int;
        assert(2 * sc * sc <= ((sc + (alpha as int)) * (2 * sc))) by (nonlinear_arith)
            requires
                alpha >= 0,
                sc >= 1,
        ;
        vstd::arithmetic::div_mod::lemma_multiply_divide_le(
            2 * sc * sc,
            sc + (alpha as int),
            2 * sc,
        );
        assert((alpha as int) * (gcomp as int) <= 0x10000int * 0x20000int)
            by (nonlinear_arith)
            requires
                0 <= alpha < 0x10000,
                0 <= gcomp <= 2 * (SCALE as int),
        ;
    }
    let folded_w: u64 = (alpha * gcomp) / (SCALE as u64);
    let coeff: u64 = if folded_w < (SCALE as u64) {
        folded_w
    } else {
        (SCALE as u64) - 1
    };
    let sbound: i64 = 2 * SCALE * SCALE;
    let c = a.fmt.channels;
    let n = a.samples.len();
    let mut y_prev: Vec<i64> = Vec::new();
    let mut x_prev: Vec<i64> = Vec::new();
    let mut ch: usize = 0;
    while ch < c
        invariant
            ch <= c,
            y_prev@.len() == ch,
            x_prev@.len() == ch,
            forall|j: int| 0 <= j < ch ==> abs_i(#[trigger] y_prev@[j] as int) <= 2 * (
            SCALE as int) * (SCALE as int),
            forall|j: int| 0 <= j < ch ==> in_range(#[trigger] x_prev@[j]),
        decreases c - ch,
    {
        y_prev.push(0i64);
        x_prev.push(0i64);
        ch += 1;
    }
    let mut out: Vec<i64> = Vec::new();
    let mut i: usize = 0;
    while i < n
        invariant
            a.wf(),
            coeff < SCALE as u64,
            sbound == 2 * (SCALE as int) * (SCALE as int),
            c == a.fmt.channels,
            1 <= c,
            n == a.samples@.len(),
            i <= n,
            y_prev@.len() == c,
            x_prev@.len() == c,
            forall|j: int| 0 <= j < c ==> abs_i(#[trigger] y_prev@[j] as int) <= 2 * (
            SCALE as int) * (SCALE as int),
            forall|j: int| 0 <= j < c ==> in_range(#[trigger] x_prev@[j]),
            out@.len() == i,
            forall|j: int| 0 <= j < i ==> abs_i(#[trigger] out@[j] as int) <= 2 * (
            SCALE as int) * (SCALE as int),
        decreases n - i,
    {
        let chan = i % c;
        proof {
            vstd::arithmetic::div_mod::lemma_mod_bound(i as int, c as int);
        }
        let x = a.samples[i];
        let yp = y_prev[chan];
        let xp = x_prev[chan];
        let t: i64 = yp + x - xp;
        proof {
            let sc = SCALE as int;
            assert(abs_i(t as int) <= 2 * sc * sc + 2 * sc);
            assert(abs_i(t as int) * (coeff as int) <= (2 * sc * sc + 2 * sc) * (sc - 1)
                && (2 * sc * sc + 2 * sc) * (sc - 1) <= (2 * sc * sc) * sc
                && 0x7fff_ffff_ffff_ffffint >= (2 * sc * sc + 2 * sc) * (sc - 1))
                by (nonlinear_arith)
                requires
                    sc == 65536,
                    abs_i(t as int) <= 2 * sc * sc + 2 * sc,
                    0 <= coeff <= sc - 1,
            ;
            assert(abs_i((t as int) * (coeff as int)) == abs_i(t as int) * (coeff as int))
                by (nonlinear_arith)
                requires
                    coeff >= 0,
            ;
            crate::sample::lemma_trunc_div_bound(
                (t as int) * (coeff as int),
                SCALE as int,
                2 * (SCALE as int) * (SCALE as int),
            );
        }
        let y = scale_sample(t, coeff, SCALE as u64);
        out.push(y);
        y_prev.set(chan, y);
        x_prev.set(chan, x);
        i += 1;
    }
    clamp_samples(&mut out);
    Buffer { samples: out, fmt: a.fmt }
}

} // verus!
