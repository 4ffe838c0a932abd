use vstd::prelude::*;
use crate::buffer::{Buffer, MAX_SAMPLES};
use crate::cut::cut;
use crate::error::Error;
use crate::fade::fade;
use crate::gain::{AMP_0DB, AMP_NEG30DB};
use crate::mix::mix;
use crate::rng::rng_coin;
use crate::time::{round_div, Time};
use crate::x::x;

verus! {

/// A quarter of a buffer, in frames, rounded to the nearest frame.
pub open spec fn spec_quarter(b: Buffer) -> int {
    round_div(b.spec_frames() * 1, 4)
}

/// The frame count of each duration-matched quarter: the mean of the two
/// quarters, rounded down.
pub open spec fn spec_xfade_half(a: Buffer, b: Buffer) -> int {
    (spec_quarter(a) + spec_quarter(b)) / 2
}

/// Matching a quarter against the average duration, at one common rate,
/// gives exactly the mean of the two quarters.
pub(crate) proof fn lemma_avg_same_rate(q0: int, q1: int, rate: int)
    requires
        q0 >= 0,
        q1 >= 0,
        q0 + q1 >= 1,
        rate >= 1,
    ensures
        q0 >= 1 ==> crate::speed::spec_new_frames(
            q0,
            q0 * (2 * rate * rate),
            rate * (q0 * rate + q1 * rate),
        ) == (q0 + q1) / 2,
        q1 >= 1 ==> crate::speed::spec_new_frames(
            q1,
            q1 * (2 * rate * rate),
            rate * (q0 * rate + q1 * rate),
        ) == (q0 + q1) / 2,
{
    let rr = rate * rate;
    assert(rr >= 1 && rate * (q0 * rate + q1 * rate) == rr * (q0 + q1) && 2 * rate * rate
        == rr * 2) by (nonlinear_arith)
        requires
            rr == rate * rate,
            rate >= 1,
            q0 >= 0,
            q1 >= 0,
    ;
    vstd::arithmetic::div_mod::lemma_div_multiples_vanish_quotient(rr, q0 + q1, 2);
    if q0 >= 1 {
        assert(q0 * (rr * (q0 + q1)) == (rr * (q0 + q1)) * q0 && q0 * (rr * 2) == (rr * 2)
            * q0) by (nonlinear_arith)
            requires
                rr == rate * rate,
        ;
        vstd::arithmetic::div_mod::lemma_div_multiples_vanish_quotient(
            q0,
            rr * (q0 + q1),
            rr * 2,
        );
    }
    if q1 >= 1 {
        assert(q1 * (rr * (q0 + q1)) == (rr * (q0 + q1)) * q1 && q1 * (rr * 2) == (rr * 2)
            * q1) by (nonlinear_arith)
            requires
                rr == rate * rate,
        ;
        vstd::arithmetic::div_mod::lemma_div_multiples_vanish_quotient(
            q1,
            rr * (q0 + q1),
            rr * 2,
        );
    }
}

/// A quarter never exceeds the whole: round(f / 4) <= f.
pub(crate) proof fn lemma_quarter_le(b: Buffer)
    requires
        b.wf(),
        b.spec_frames() >= 1,
    ensures
        1 <= spec_quarter(b) || b.spec_frames() < 2,
        0 <= spec_quarter(b) <= b.spec_frames(),
        b.spec_frames() >= 2 ==> spec_quarter(b) >= 1,
{
    let f = b.spec_frames();
    assert(f * 1 == f) by (nonlinear_arith);
    assert(2 * f + 4 <= 8 * f) by (nonlinear_arith)
        requires
            f >= 1,
    ;
    vstd::arithmetic::div_mod::lemma_div_is_ordered(2 * f + 4, 8 * f, 8);
    vstd::arithmetic::div_mod::lemma_div_multiples_vanish(f, 8);
    assert(8 * f == f * 8) by (nonlinear_arith);
    vstd::arithmetic::div_mod::lemma_div_pos_is_pos(2 * f + 4, 8);
    if f >= 2 {
        vstd::arithmetic::div_mod::lemma_div_is_ordered(8, 2 * f + 4, 8);
        assert(8int / 8 == 1);
    }
}

/// A buffer's sample count is frames times channels.
pub(crate) proof fn lemma_frames_samples(a: Buffer)
    requires
        a.wf(),
    ensures
        a.samples@.len() == a.spec_frames() * (a.fmt.channels as int),
        a.spec_frames() >= 0,
{
    let c = a.fmt.channels as int;
    let len = a.samples@.len() as int;
    vstd::arithmetic::div_mod::lemma_fundamental_div_mod(len, c);
    vstd::arithmetic::div_mod::lemma_div_pos_is_pos(len, c);
    assert(c * (len / c) == (len / c) * c) by (nonlinear_arith);
}

/// The success hypothesis: two inputs of one format, two frames or more
/// each, of bounded joint size.  On these, every draw succeeds.
pub open spec fn spec_xfade_ready(wavs: Seq<Buffer>) -> bool {
    &&& wavs.len() >= 2
    &&& wavs[0].fmt == wavs[1].fmt
    &&& wavs[0].spec_frames() >= 2
    &&& wavs[1].spec_frames() >= 2
    &&& wavs[0].samples@.len() + wavs[1].samples@.len() <= MAX_SAMPLES / 2
}

/// Cross-fade: trims both inputs to their first quarter, matches their
/// durations, fades one out and the other in, and mixes the two layers,
/// repeated four times.
pub fn xfade(wavs: &Vec<Buffer>, rng: &mut rand::rngs::StdRng) -> (r: Result<Buffer, Error>)
    requires
        forall|k: int| 0 <= k < wavs@.len() ==> (#[trigger] wavs@[k]).wf(),
    ensures
        match r {
            Ok(out) => {
                &&& out.wf()
                &&& wavs@.len() >= 2
                &&& out.fmt == wavs@[0].fmt
                &&& (spec_xfade_ready(wavs@) ==> out.spec_frames() == 4 * spec_xfade_half(
                    wavs@[0],
                    wavs@[1],
                ))
            },
            Err(e) => {
                &&& e != Error::UnknownBlender && e != Error::UnknownEffect
                &&& (e == Error::EmptyInput <==> wavs@.len() < 2)
                &&& (e == Error::OutOfRange <==> wavs@.len() >= 2 && (wavs@[0].spec_frames()
                    == 0 || wavs@[1].spec_frames() == 0))
                &&& !spec_xfade_ready(wavs@)
            },
        },
{
    if wavs.len() < 2 {
        return Err(Error::EmptyInput);
    }
    let zero = Time::abs(0, 1);
    let quarter = Time::fract(1, 4);
    let f1 = match cut(&wavs[0], &zero, &quarter) {
        Ok(v) => v,
        Err(e) => {
            proof {
                lemma_zero_start(wavs@[0]);
            }
            return Err(e);
        },
    };
    let f2 = match cut(&wavs[1], &zero, &quarter) {
        Ok(v) => v,
        Err(e) => {
            proof {
                lemma_zero_start(wavs@[0]);
                lemma_zero_start(wavs@[1]);
            }
            return Err(e);
        },
    };
    proof {
        lemma_zero_start(wavs@[0]);
        lemma_zero_start(wavs@[1]);
        lemma_quarter_le(wavs@[0]);
        lemma_quarter_le(wavs@[1]);
        lemma_cut_quarter_frames(wavs@[0], f1);
        lemma_cut_quarter_frames(wavs@[1], f2);
    }
    let (w1, w2, _l) = match crate::utils::normalize_speed(&f1, &f2) {
        Ok(v) => v,
        Err(e) => {
            proof {
                if spec_xfade_ready(wavs@) {
                    lemma_xfade_sizes(wavs@[0], wavs@[1], f1, f2);
                }
            }
            return Err(e);
        },
    };
    proof {
        if spec_xfade_ready(wavs@) {
            lemma_xfade_sizes(wavs@[0], wavs@[1], f1, f2);
        }
    }
    let l1 = fade(&w1, AMP_0DB, AMP_NEG30DB);
    let l2 = fade(&w2, AMP_NEG30DB, AMP_0DB);
    let normalize = rng_coin(rng, 1, 2);
    let m = match mix(&l1, &l2, normalize) {
        Ok(v) => v,
        Err(e) => {
            return Err(e);
        },
    };
    proof {
        if spec_xfade_ready(wavs@) {
            lemma_frames_samples(w1);
            lemma_frames_samples(w2);
        }
    }
    match x(&m, 4) {
        Ok(out) => {
            proof {
                if spec_xfade_ready(wavs@) {
                    crate::x::lemma_repeat_len(m.samples@, 4);
                    lemma_frames_samples(w1);
                    lemma_frames_samples(w2);
                    lemma_times_div(
                        4 * spec_xfade_half(wavs@[0], wavs@[1]),
                        out.fmt.channels as int,
                    );
                    assert(4 * (spec_xfade_half(wavs@[0], wavs@[1]) * (
                    out.fmt.channels as int)) == (4 * spec_xfade_half(wavs@[0], wavs@[1]))
                        * (out.fmt.channels as int)) by (nonlinear_arith);
                }
            }
            Ok(out)
        },
        Err(e) => {
            proof {
                if spec_xfade_ready(wavs@) {
                    crate::x::lemma_repeat_len(m.samples@, 1);
                    lemma_frames_samples(w1);
                    lemma_frames_samples(w2);
                    lemma_xfade_sizes(wavs@[0], wavs@[1], f1, f2);
                }
            }
            Err(e)
        },
    }
}

/// A cut from the start with a quarter duration keeps exactly the quarter.
pub(crate) proof fn lemma_cut_quarter_frames(src: Buffer, out: Buffer)
    requires
        src.wf(),
        out.wf(),
        src.spec_frames() >= 1,
        out.spec_frames() == crate::cut::spec_cut_end(
            src,
            Time::Absolute(crate::rat::Rat { num: 0, den: 1 }),
            Time::Fraction(crate::rat::Rat { num: 1, den: 4 }),
        ) - crate::cut::spec_cut_start(
            src,
            Time::Absolute(crate::rat::Rat { num: 0, den: 1 }),
        ),
    ensures
        out.spec_frames() == spec_quarter(src),
{
    lemma_zero_start(src);
    lemma_quarter_le(src);
}

/// A zero absolute start resolves to frame zero.
pub(crate) proof fn lemma_zero_start(b: Buffer)
    requires
        b.wf(),
    ensures
        crate::cut::spec_cut_start(b, Time::Absolute(crate::rat::Rat { num: 0, den: 1 }))
            == 0,
{
    let rr = b.fmt.sample_rate as int;
    assert((0u64 as int) * rr == 0) by (nonlinear_arith);
    crate::time::lemma_round_div_zero(1);
}

/// Under the hypothesis, the duration-matched quarters stay well inside
/// the size cap.
proof fn lemma_xfade_sizes(a0: Buffer, a1: Buffer, f1: Buffer, f2: Buffer)
    requires
        a0.wf(),
        a1.wf(),
        f1.wf(),
        f2.wf(),
        a0.fmt == a1.fmt,
        f1.fmt == a0.fmt,
        f2.fmt == a1.fmt,
        a0.spec_frames() >= 2,
        a1.spec_frames() >= 2,
        a0.samples@.len() + a1.samples@.len() <= MAX_SAMPLES / 2,
        f1.spec_frames() == spec_quarter(a0),
        f2.spec_frames() == spec_quarter(a1),
    ensures
        crate::utils::spec_avg_frames(f1, f1, f2) == spec_xfade_half(a0, a1),
        crate::utils::spec_avg_frames(f2, f1, f2) == spec_xfade_half(a0, a1),
        1 <= spec_xfade_half(a0, a1),
        4 * (spec_xfade_half(a0, a1) * (a0.fmt.channels as int)) <= MAX_SAMPLES,
{
    let q0 = spec_quarter(a0);
    let q1 = spec_quarter(a1);
    let rate = a0.fmt.sample_rate as int;
    let c = a0.fmt.channels as int;
    lemma_quarter_le(a0);
    lemma_quarter_le(a1);
    lemma_frames_samples(a0);
    lemma_frames_samples(a1);
    vstd::arithmetic::div_mod::lemma_div_nonincreasing(
        a0.samples@.len() as int,
        c,
    );
    vstd::arithmetic::div_mod::lemma_div_nonincreasing(
        a1.samples@.len() as int,
        c,
    );
    assert(0 <= q0 * rate + q1 * rate < 0x1_0000_0000_0000_0000int) by (nonlinear_arith)
        requires
            0 <= q0 <= 0x4000_0000,
            0 <= q1 <= 0x4000_0000,
            1 <= rate <= 0x100000,
    ;
    assert(1 <= 2 * rate * rate < 0x1_0000_0000_0000_0000int) by (nonlinear_arith)
        requires
            1 <= rate <= 0x100000,
    ;
    lemma_avg_same_rate(q0, q1, rate);
    vstd::arithmetic::div_mod::lemma_fundamental_div_mod(q0 + q1, 2);
    vstd::arithmetic::div_mod::lemma_div_pos_is_pos(q0 + q1, 2);
    assert(2int / 2 == 1);
    vstd::arithmetic::div_mod::lemma_div_is_ordered(2, q0 + q1, 2);
    lemma_frames_samples(a0);
    lemma_frames_samples(a1);
    let h = (q0 + q1) / 2;
    assert(4 * (h * c) <= MAX_SAMPLES) by (nonlinear_arith)
        requires
            2 * h <= q0 + q1,
            q0 <= a0.spec_frames(),
            q1 <= a1.spec_frames(),
            a0.samples@.len() == a0.spec_frames() * c,
            a1.samples@.len() == a1.spec_frames() * c,
            a0.samples@.len() + a1.samples@.len() <= MAX_SAMPLES / 2,
            c >= 1,
            h >= 0,
            MAX_SAMPLES / 2 * 2 == MAX_SAMPLES,
    ;
}

/// (n * c) / c == n for positive c.
pub(crate) proof fn lemma_times_div(n: int, c: int)
    requires
        n >= 0,
        c >= 1,
    ensures
        (n * c) % c == 0,
        (n * c) / c == n,
{
    vstd::arithmetic::div_mod::lemma_mod_multiples_basic(n, c);
    vstd::arithmetic::div_mod::lemma_div_multiples_vanish(n, c);
    assert(c * n == n * c) by (nonlinear_arith);
}

} // verus!
