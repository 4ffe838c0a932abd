use vstd::prelude::*;
use crate::buffer::{Buffer, Format, MAX_SAMPLES};
use crate::cut::cut;
use crate::error::Error;
use crate::mix::mix;
use crate::rat::{scaled_rat, Rat};
use crate::rng::{rng_below, rng_coin};
use crate::silence::{silence, SILENCE_CHANNELS, SILENCE_RATE};
use crate::time::Time;
use crate::utils::normalize_speed;
use crate::x::x;
use crate::xfade::{
    lemma_avg_same_rate,
    lemma_cut_quarter_frames,
    lemma_frames_samples,
    lemma_quarter_le,
    lemma_zero_start,
    spec_quarter,
};

verus! {

/// The success hypothesis: two stereo inputs at the silence rate, eight
/// frames or more each, of bounded joint size.  On these every draw
/// succeeds: the silence pad always matches the inputs' format.
pub open spec fn spec_delayer_ready(wavs: Seq<Buffer>) -> bool {
    &&& wavs.len() >= 2
    &&& wavs[0].fmt == (Format { channels: SILENCE_CHANNELS, sample_rate: SILENCE_RATE })
    &&& wavs[1].fmt == (Format { channels: SILENCE_CHANNELS, sample_rate: SILENCE_RATE })
    &&& wavs[0].spec_frames() >= 8
    &&& wavs[1].spec_frames() >= 8
    &&& wavs[0].samples@.len() + wavs[1].samples@.len() <= MAX_SAMPLES / 8
}

/// The silence pad of an offset of the common duration over 2k frames:
/// the rate cancels, leaving (q0 + q1) / (2 k).
proof fn lemma_pad_frames(q0: int, q1: int, k: int)
    requires
        q0 >= 0,
        q1 >= 0,
        1 <= k <= 32,
    ensures
        ((q0 * (SILENCE_RATE as int) + q1 * (SILENCE_RATE as int)) * (SILENCE_RATE as int))
            / ((2 * (SILENCE_RATE as int) * (SILENCE_RATE as int)) * k) == (q0 + q1) / (2
            * k),
        0 <= (q0 + q1) / (2 * k) <= q0 + q1,
{
    let rr = (SILENCE_RATE as int) * (SILENCE_RATE as int);
    assert((q0 * (SILENCE_RATE as int) + q1 * (SILENCE_RATE as int)) * (SILENCE_RATE as int)
        == rr * (q0 + q1) && (2 * (SILENCE_RATE as int) * (SILENCE_RATE as int)) * k == rr
        * (2 * k) && rr >= 1) by (nonlinear_arith)
        requires
            rr == (SILENCE_RATE as int) * (SILENCE_RATE as int),
    ;
    vstd::arithmetic::div_mod::lemma_div_multiples_vanish_quotient(rr, q0 + q1, 2 * k);
    vstd::arithmetic::div_mod::lemma_div_pos_is_pos(q0 + q1, 2 * k);
    vstd::arithmetic::div_mod::lemma_div_nonincreasing(q0 + q1, 2 * k);
}

/// Echo-like layering: trims both inputs to their first quarter, matches
/// their durations, then mixes one against the other offset by a silence
/// pad of a quarter, eighth, sixteenth or thirty-second of the common
/// duration, and repeats the blend four times.
#[verifier::rlimit(100)]
pub fn delayer(wavs: &Vec<Buffer>, rng: &mut rand::rngs::StdRng) -> (r: Result<Buffer, Error>)
    requires
        forall|k: int| 0 <= k < wavs@.len() ==> (#[trigger] wavs@[k]).wf(),
    ensures
        match r {
            Ok(out) => {
                &&& out.wf()
                &&& wavs@.len() >= 2
                &&& out.fmt == wavs@[0].fmt
                &&& wavs@[0].spec_frames() >= 1
                &&& wavs@[1].spec_frames() >= 1
                // only inputs matching the silence pad's format can blend
                &&& wavs@[0].fmt == (Format {
                    channels: SILENCE_CHANNELS,
                    sample_rate: SILENCE_RATE,
                })
                &&& wavs@[1].fmt == wavs@[0].fmt
            },
            Err(e) => {
                &&& e != Error::UnknownBlender && e != Error::UnknownEffect
                &&& (e == Error::EmptyInput <==> wavs@.len() < 2)
                &&& !spec_delayer_ready(wavs@)
            },
        },
{
    if wavs.len() < 2 {
        return Err(Error::EmptyInput);
    }
    let zero = Time::abs(0, 1);
    let quarter = Time::fract(1, 4);
    let c0 = match cut(&wavs[0], &zero, &quarter) {
        Ok(v) => v,
        Err(e) => {
            proof {
                lemma_zero_start(wavs@[0]);
            }
            return Err(e);
        },
    };
    let c1 = match cut(&wavs[1], &zero, &quarter) {
        Ok(v) => v,
        Err(e) => {
            proof {
                lemma_zero_start(wavs@[1]);
            }
            return Err(e);
        },
    };
    proof {
        lemma_zero_start(wavs@[0]);
        lemma_zero_start(wavs@[1]);
        lemma_quarter_le(wavs@[0]);
        lemma_quarter_le(wavs@[1]);
        lemma_cut_quarter_frames(wavs@[0], c0);
        lemma_cut_quarter_frames(wavs@[1], c1);
    }
    let (n0, n1, l) = match normalize_speed(&c0, &c1) {
        Ok(v) => v,
        Err(e) => {
            proof {
                if spec_delayer_ready(wavs@) {
                    lemma_delayer_sizes(wavs@[0], wavs@[1], c0, c1);
                }
            }
            return Err(e);
        },
    };
    proof {
        if spec_delayer_ready(wavs@) {
            lemma_delayer_sizes(wavs@[0], wavs@[1], c0, c1);
        }
    }
    let pick_k = rng_below(rng, 4);
    let k: u64 = if pick_k == 0 {
        4
    } else if pick_k == 1 {
        8
    } else if pick_k == 2 {
        16
    } else {
        32
    };
    let offset = match scaled_rat(&l, 1, k) {
        Some(v) => v,
        None => {
            proof {
                if spec_delayer_ready(wavs@) {
                    lemma_delayer_sizes(wavs@[0], wavs@[1], c0, c1);
                    lemma_avg_parts_small(c0.spec_frames(), c1.spec_frames(), k as int);
                }
            }
            return Err(Error::InvalidParameter);
        },
    };
    let end = match scaled_rat(&l, k - 1, k) {
        Some(v) => v,
        None => {
            proof {
                if spec_delayer_ready(wavs@) {
                    lemma_delayer_sizes(wavs@[0], wavs@[1], c0, c1);
                    lemma_avg_parts_small(c0.spec_frames(), c1.spec_frames(), k as int);
                }
            }
            return Err(Error::InvalidParameter);
        },
    };
    proof {
        if spec_delayer_ready(wavs@) {
            lemma_delayer_sizes(wavs@[0], wavs@[1], c0, c1);
            lemma_pad_frames(c0.spec_frames(), c1.spec_frames(), k as int);
            let q0 = c0.spec_frames();
            let q1 = c1.spec_frames();
            let rt = SILENCE_RATE as int;
            assert(l.num * 1 == l.num) by (nonlinear_arith);
            assert(offset.num as int == q0 * rt + q1 * rt);
            assert(offset.den as int == (2 * rt * rt) * (k as int));
            assert(crate::silence::spec_silence_frames(offset) == (q0 + q1) / (2 * (
            k as int)));
            assert(SILENCE_CHANNELS * ((q0 + q1) / (2 * (k as int))) <= 2 * (q0 + q1))
                by (nonlinear_arith)
                requires
                    0 <= (q0 + q1) / (2 * (k as int)) <= q0 + q1,
                    SILENCE_CHANNELS == 2,
            ;
            assert(2 * (q0 + q1) <= 8 * ((q0 + q1) * (SILENCE_CHANNELS as int)))
                by (nonlinear_arith)
                requires
                    q0 + q1 >= 0,
                    SILENCE_CHANNELS == 2,
            ;
        }
    }
    let pad = match silence(&offset) {
        Ok(v) => v,
        Err(e) => {
            return Err(e);
        },
    };
    let end_t = Time::abs(end.num, end.den);
    let tail = match cut(&n1, &zero, &end_t) {
        Ok(v) => v,
        Err(e) => {
            proof {
                lemma_zero_start(n1);
                if spec_delayer_ready(wavs@) {
                    lemma_delayer_sizes(wavs@[0], wavs@[1], c0, c1);
                }
            }
            return Err(e);
        },
    };
    proof {
        lemma_zero_start(n1);
        lemma_frames_samples(n1);
        lemma_frames_samples(tail);
        lemma_frames_samples(pad);
        lemma_frames_samples(n0);
    }
    proof {
        if spec_delayer_ready(wavs@) {
            let q0 = c0.spec_frames();
            let q1 = c1.spec_frames();
            assert(crate::cut::spec_cut_end(n1, zero, end_t) <= n1.spec_frames());
            lemma_tail_small(n1, tail);
            // the pad holds (q0+q1)/(2k) stereo frames, the tail at most the
            // matched half, so together they stay far below the cap
            assert(pad.samples@.len() <= 2 * (q0 + q1)) by (nonlinear_arith)
                requires
                    pad.samples@.len() == SILENCE_CHANNELS * ((q0 + q1) / (2 * (k as int))),
                    0 <= (q0 + q1) / (2 * (k as int)) <= q0 + q1,
                    SILENCE_CHANNELS == 2,
            ;
            assert(n1.samples@.len() <= 2 * (q0 + q1)) by (nonlinear_arith)
                requires
                    n1.samples@.len() == n1.spec_frames() * (SILENCE_CHANNELS as int),
                    0 <= n1.spec_frames() <= q0 + q1,
                    SILENCE_CHANNELS == 2,
            ;
            assert(8 * ((q0 + q1) * (SILENCE_CHANNELS as int)) == 16 * (q0 + q1))
                by (nonlinear_arith)
                requires
                    SILENCE_CHANNELS == 2,
            ;
        }
    }
    let shadow = match crate::add::add(&pad, &tail) {
        Ok(v) => v,
        Err(e) => {
            return Err(e);
        },
    };
    let deep = rng_coin(rng, 1, 5);
    let out = match mix(&n0, &shadow, deep) {
        Ok(v) => v,
        Err(e) => {
            proof {
                if spec_delayer_ready(wavs@) {
                    lemma_delayer_sizes(wavs@[0], wavs@[1], c0, c1);
                }
            }
            return Err(e);
        },
    };
    match x(&out, 4) {
        Ok(v) => Ok(v),
        Err(e) => {
            proof {
                if spec_delayer_ready(wavs@) {
                    let q0 = c0.spec_frames();
                    let q1 = c1.spec_frames();
                    // the mixed layer holds at most pad + matched halves
                    assert(out.samples@.len() <= 6 * (q0 + q1));
                    assert(4 * out.samples@.len() <= 24 * (q0 + q1));
                    assert(16 * (q0 + q1) <= MAX_SAMPLES && 24 * (q0 + q1) <= 2
                        * MAX_SAMPLES) by (nonlinear_arith)
                        requires
                            8 * ((q0 + q1) * (SILENCE_CHANNELS as int)) <= MAX_SAMPLES,
                            SILENCE_CHANNELS == 2,
                            q0 + q1 >= 0,
                    ;
                }
            }
            Err(e)
        },
    }
}

/// The average duration's parts stay far inside the range time expressions
/// carry.
proof fn lemma_avg_parts_small(q0: int, q1: int, k: int)
    requires
        0 <= q0 <= 0x4000_0000,
        0 <= q1 <= 0x4000_0000,
        1 <= k <= 32,
    ensures
        (q0 * (SILENCE_RATE as int) + q1 * (SILENCE_RATE as int)) * (k - 1)
            <= crate::time::MAX_TIME_PART,
        (q0 * (SILENCE_RATE as int) + q1 * (SILENCE_RATE as int)) * 1
            <= crate::time::MAX_TIME_PART,
        (2 * (SILENCE_RATE as int) * (SILENCE_RATE as int)) * k <= crate::time::MAX_TIME_PART,
{
    assert((q0 * (SILENCE_RATE as int) + q1 * (SILENCE_RATE as int)) * (k - 1)
        <= crate::time::MAX_TIME_PART && (q0 * (SILENCE_RATE as int) + q1 * (
    SILENCE_RATE as int)) * 1 <= crate::time::MAX_TIME_PART && (2 * (SILENCE_RATE as int) * (
    SILENCE_RATE as int)) * k <= crate::time::MAX_TIME_PART) by (nonlinear_arith)
        requires
            0 <= q0 <= 0x4000_0000,
            0 <= q1 <= 0x4000_0000,
            1 <= k <= 32,
    ;
}

/// A cut from frame zero holds at most its source.
proof fn lemma_tail_small(src: Buffer, out: Buffer)
    requires
        src.wf(),
        out.wf(),
        out.fmt == src.fmt,
        out.spec_frames() <= src.spec_frames(),
    ensures
        out.samples@.len() <= src.samples@.len(),
{
    lemma_frames_samples(src);
    lemma_frames_samples(out);
    assert(out.spec_frames() * (src.fmt.channels as int) <= src.spec_frames() * (
    src.fmt.channels as int)) by (nonlinear_arith)
        requires
            0 <= out.spec_frames() <= src.spec_frames(),
            src.fmt.channels >= 1,
    ;
}

/// Under the hypothesis, the matched quarters and their average stay well
/// inside every cap.
proof fn lemma_delayer_sizes(a0: Buffer, a1: Buffer, c0: Buffer, c1: Buffer)
    requires
        a0.wf(),
        a1.wf(),
        c0.wf(),
        c1.wf(),
        a0.fmt == (Format { channels: SILENCE_CHANNELS, sample_rate: SILENCE_RATE }),
        a1.fmt == a0.fmt,
        c0.fmt == a0.fmt,
        c1.fmt == a1.fmt,
        a0.spec_frames() >= 8,
        a1.spec_frames() >= 8,
        a0.samples@.len() + a1.samples@.len() <= MAX_SAMPLES / 8,
        c0.spec_frames() == spec_quarter(a0),
        c1.spec_frames() == spec_quarter(a1),
    ensures
        crate::utils::spec_avg_frames(c0, c0, c1) == (c0.spec_frames() + c1.spec_frames())
            / 2,
        crate::utils::spec_avg_frames(c1, c0, c1) == (c0.spec_frames() + c1.spec_frames())
            / 2,
        1 <= (c0.spec_frames() + c1.spec_frames()) / 2,
        8 * (((c0.spec_frames() + c1.spec_frames()) / 2) * (SILENCE_CHANNELS as int))
            <= MAX_SAMPLES,
        c0.spec_frames() + c1.spec_frames() <= a0.spec_frames() + a1.spec_frames(),
        8 * ((c0.spec_frames() + c1.spec_frames()) * (SILENCE_CHANNELS as int))
            <= MAX_SAMPLES,
        c0.spec_frames() <= 0x4000_0000,
        c1.spec_frames() <= 0x4000_0000,
        crate::utils::spec_avg_duration(c0, c1).num == c0.spec_frames() * (
        SILENCE_RATE as int) + c1.spec_frames() * (SILENCE_RATE as int),
        crate::utils::spec_avg_duration(c0, c1).den == 2 * (SILENCE_RATE as int) * (
        SILENCE_RATE as int),
{
    let q0 = spec_quarter(a0);
    let q1 = spec_quarter(a1);
    let rate = SILENCE_RATE as int;
    let c = SILENCE_CHANNELS as int;
    lemma_quarter_le(a0);
    lemma_quarter_le(a1);
    lemma_frames_samples(a0);
    lemma_frames_samples(a1);
    vstd::arithmetic::div_mod::lemma_div_nonincreasing(a0.samples@.len() as int, c);
    vstd::arithmetic::div_mod::lemma_div_nonincreasing(a1.samples@.len() as int, c);
    assert(0 <= q0 * rate + q1 * rate < 0x1_0000_0000_0000_0000int && 1 <= 2 * rate * rate
        < 0x1_0000_0000_0000_0000int) by (nonlinear_arith)
        requires
            0 <= q0 <= 0x4000_0000,
            0 <= q1 <= 0x4000_0000,
            rate == 44100,
    ;
    lemma_avg_same_rate(q0, q1, rate);
    vstd::arithmetic::div_mod::lemma_fundamental_div_mod(q0 + q1, 2);
    vstd::arithmetic::div_mod::lemma_div_pos_is_pos(q0 + q1, 2);
    assert(2int / 2 == 1);
    vstd::arithmetic::div_mod::lemma_div_is_ordered(2, q0 + q1, 2);
    let h = (q0 + q1) / 2;
    assert(8 * (h * c) <= MAX_SAMPLES && 8 * ((q0 + q1) * c) <= MAX_SAMPLES)
        by (nonlinear_arith)
        requires
            2 * h <= q0 + q1,
            h >= 0,
            q0 <= a0.spec_frames(),
            q1 <= a1.spec_frames(),
            a0.samples@.len() == a0.spec_frames() * c,
            a1.samples@.len() == a1.spec_frames() * c,
            a0.samples@.len() + a1.samples@.len() <= MAX_SAMPLES / 8,
            c >= 1,
            MAX_SAMPLES / 8 * 8 == MAX_SAMPLES,
    ;
}

} // verus!
