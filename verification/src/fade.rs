use vstd::prelude::*;
use crate::buffer::{in_range, Buffer, SCALE};
use crate::gain::MAX_AMP;
use crate::sample::{abs_i, scale_sample, scaled, soft_clamp, soft_clamp_spec, trunc_div};

verus! {

/// The amplitude applied at sample index i of n: a linear ramp in linear
/// space from amp0 at the first sample to amp1 at the last.
pub open spec fn spec_fade_amp(amp0: int, amp1: int, i: int, n: int) -> int {
    if n <= 1 {
        amp0
    } else {
        amp0 + trunc_div((amp1 - amp0) * i, n - 1)
    }
}

/// One sample after the ramped gain and the soft clamp.
pub open spec fn spec_fade_at(s: int, amp0: int, amp1: int, i: int, n: int) -> int {
    soft_clamp_spec(scaled(s, spec_fade_amp(amp0, amp1, i, n), SCALE as int))
}

/// The ramp amplitude always lies between the two end amplitudes.
proof fn lemma_fade_amp_range(amp0: int, amp1: int, i: int, n: int)
    requires
        0 <= amp0,
        0 <= amp1,
        0 <= i < n,
    ensures
        spec_fade_amp(amp0, amp1, i, n) >= if amp0 <= amp1 {
            amp0
        } else {
            amp1
        },
        spec_fade_amp(amp0, amp1, i, n) <= if amp0 <= amp1 {
            amp1
        } else {
            amp0
        },
{
    if n > 1 {
        let d = amp1 - amp0;
        if d >= 0 {
            assert(0 <= d * i && d * i <= d * (n - 1)) by (nonlinear_arith)
                requires
                    d >= 0,
                    0 <= i <= n - 1,
            ;
            crate::sample::lemma_trunc_div_bound(d * i, n - 1, d);
        } else {
            assert(d * (n - 1) <= d * i && d * i <= 0 && (-d) * (n - 1) == -(d * (n - 1)))
                by (nonlinear_arith)
                requires
                    d < 0,
                    0 <= i <= n - 1,
            ;
            crate::sample::lemma_trunc_div_bound(d * i, n - 1, -d);
        }
    }
}

/// Ramps the amplitude linearly from amp0 / SCALE at the first sample to
/// amp1 / SCALE at the last, then soft-clamps.
pub fn fade(a: &Buffer, amp0: u64, amp1: u64) -> (r: Buffer)
    requires
        a.wf(),
        amp0 <= MAX_AMP,
        amp1 <= MAX_AMP,
    ensures
        r.wf(),
        r.fmt == a.fmt,
        r.samples@.len() == a.samples@.len(),
        forall|i: int|
            0 <= i < a.samples@.len() ==> r.samples@[i] == spec_fade_at(
                a.samples@[i] as int,
                amp0 as int,
                amp1 as int,
                i,
                a.samples@.len() as int,
            ),
{
    let n = a.samples.len();
    let mut out: Vec<i64> = Vec::new();
    let mut i: usize = 0;
    while i < n
        invariant
            a.wf(),
            amp0 <= MAX_AMP,
            amp1 <= MAX_AMP,
            n == a.samples@.len(),
            i <= n,
            out@.len() == i,
            forall|j: int|
                0 <= j < i ==> out@[j] == spec_fade_at(
                    a.samples@[j] as int,
                    amp0 as int,
                    amp1 as int,
                    j,
                    n as int,
                ),
            forall|j: int| 0 <= j < i ==> in_range(#[trigger] out@[j]),
        decreases n - i,
    {
        proof {
            lemma_fade_amp_range(amp0 as int, amp1 as int, i as int, n as int);
        }
        let amp_i: u64 = if n <= 1 {
            amp0
        } else {
            let diff_mag: u64 = if amp1 >= amp0 {
                amp1 - amp0
            } else {
                amp0 - amp1
            };
            proof {
                assert((diff_mag as int) * (i as int) <= (MAX_AMP as int) * (n as int))
                    by (nonlinear_arith)
                    requires
                        diff_mag <= MAX_AMP,
                        0 <= i <= n,
                ;
                assert((i as int) * ((diff_mag as int)) == (diff_mag as int) * (i as int))
                    by (nonlinear_arith);
                assert(abs_i((diff_mag as int) * (i as int)) <= (diff_mag as int) * (n as int
                    - 1)) by (nonlinear_arith)
                    requires
                        0 <= i <= n - 1,
                        diff_mag >= 0,
                ;
                crate::sample::lemma_trunc_div_bound(
                    (diff_mag as int) * (i as int),
                    n as int - 1,
                    diff_mag as int,
                );
            }
            let step_w: u128 = ((diff_mag as u128) * (i as u128)) / (((n - 1) as u64) as u128);
            let step: u64 = step_w as u64;
            proof {
                vstd::arithmetic::div_mod::lemma_div_pos_is_pos(
                    (diff_mag as int) * (i as int),
                    n as int - 1,
                );
                let d = (amp1 as int) - (amp0 as int);
                if amp1 >= amp0 {
                    assert(trunc_div(d * (i as int), n as int - 1) == step as int) by {
                        assert(d * (i as int) == (diff_mag as int) * (i as int));
                    }
                } else {
                    assert(trunc_div(d * (i as int), n as int - 1) == -(step as int)) by {
                        assert(d * (i as int) == -((diff_mag as int) * (i as int)))
                            by (nonlinear_arith)
                            requires
                                d == -(diff_mag as int),
                        ;
                    }
                }
            }
            if amp1 >= amp0 {
                amp0 + step
            } else {
                amp0 - step
            }
        };
        let s = a.samples[i];
        proof {
            assert(abs_i(s as int) * (amp_i as int) <= (SCALE as int) * (MAX_AMP as int))
                by (nonlinear_arith)
                requires
                    abs_i(s as int) <= SCALE as int,
                    0 <= amp_i <= MAX_AMP,
            ;
        }
        let v = soft_clamp(scale_sample(s, amp_i, SCALE as u64));
        out.push(v);
        i += 1;
    }
    Buffer { samples: out, fmt: a.fmt }
}

} // verus!
