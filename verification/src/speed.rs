use vstd::prelude::*;
use crate::buffer::{all_in_range, in_range, Buffer, MAX_SAMPLES};
use crate::error::Error;
use crate::rat::Rat;
use crate::sample::{interp, interp_spec};
use vstd::arithmetic::div_mod::{
    lemma_fundamental_div_mod,
    lemma_fundamental_div_mod_converse_div,
    lemma_fundamental_div_mod_converse_mod,
    lemma_mod_multiples_basic,
};

verus! {

/// The largest numerator or denominator the resampler accepts.
pub const MAX_FACTOR_PART: u128 = 0x1_0000_0000_0000_0000_0000_0000;

/// The frame count a resample by num / den produces from `frames` frames:
/// floor(frames / (num / den)).
pub open spec fn spec_new_frames(frames: int, num: int, den: int) -> int {
    (frames * den) / num
}

/// The sample the resampler writes at output frame i, channel ch: the
/// source is read at fractional frame position i * num / den, linearly
/// interpolating between the two neighbouring frames, with positions beyond
/// the source reading silence.
pub open spec fn spec_resample_at(
    s: Seq<i64>,
    c: int,
    num: int,
    den: int,
    i: int,
    ch: int,
) -> int {
    let pos = i * num;
    let ip = pos / den;
    let rem = pos % den;
    let idx1 = ip * c + ch;
    let idx2 = (ip + 1) * c + ch;
    let s0: int = if 0 <= idx1 < s.len() {
        s[idx1] as int
    } else {
        0
    };
    let s1: int = if 0 <= idx2 < s.len() {
        s[idx2] as int
    } else {
        0
    };
    interp_spec(s0, s1, rem, den)
}

/// The fractional-index linear-interpolation engine shared by speed and
/// resize.  Produces exactly `new_frames` frames.
pub(crate) fn resample(
    samples: &Vec<i64>,
    c: usize,
    num: u128,
    den: u128,
    new_frames: usize,
) -> (r: Vec<i64>)
    requires
        1 <= c,
        samples@.len() as int % (c as int) == 0,
        samples@.len() <= MAX_SAMPLES,
        all_in_range(samples@),
        1 <= num <= MAX_FACTOR_PART,
        1 <= den <= MAX_FACTOR_PART,
        new_frames == spec_new_frames((samples@.len() as int) / (c as int), num as int, den as int),
        new_frames * (c as int) <= MAX_SAMPLES,
    ensures
        r@.len() == new_frames * (c as int),
        all_in_range(r@),
        forall|j: int|
            0 <= j < r@.len() ==> r@[j] == spec_resample_at(
                samples@,
                c as int,
                num as int,
                den as int,
                j / (c as int),
                j % (c as int),
            ),
{
    let frames: usize = samples.len() / c;
    proof {
        lemma_fundamental_div_mod(samples@.len() as int, c as int);
        assert((frames as int) * (c as int) == samples@.len()) by (nonlinear_arith)
            requires
                samples@.len() as int == (c as int) * (frames as int) + samples@.len() as int % (
                c as int),
                samples@.len() as int % (c as int) == 0,
        ;
        lemma_fundamental_div_mod(((frames as int) * (den as int)) as int, num as int);
    }
    let mut out: Vec<i64> = Vec::new();
    let mut i: usize = 0;
    while i < new_frames
        invariant
            1 <= c,
            frames == samples@.len() as int / (c as int),
            (frames as int) * (c as int) == samples@.len(),
            samples@.len() <= MAX_SAMPLES,
            all_in_range(samples@),
            1 <= num <= MAX_FACTOR_PART,
            1 <= den <= MAX_FACTOR_PART,
            new_frames == spec_new_frames(frames as int, num as int, den as int),
            new_frames * (c as int) <= MAX_SAMPLES,
            i <= new_frames,
            out@.len() == i * (c as int),
            forall|j: int|
                0 <= j < out@.len() ==> out@[j] == spec_resample_at(
                    samples@,
                    c as int,
                    num as int,
                    den as int,
                    j / (c as int),
                    j % (c as int),
                ),
            all_in_range(out@),
        decreases new_frames - i,
    {
        proof {
            // i * num stays below frames * den, so the integer source frame
            // index stays below frames.
            lemma_fundamental_div_mod(((frames as int) * (den as int)) as int, num as int);
            assert((i as int) * (num as int) < (frames as int) * (den as int))
                by (nonlinear_arith)
                requires
                    0 <= i < new_frames,
                    new_frames == ((frames as int) * (den as int)) / (num as int),
                    1 <= num,
                    1 <= den,
                    (frames as int) * (den as int) == (num as int) * (((frames as int) * (
                    den as int)) / (num as int)) + ((frames as int) * (den as int)) % (
                    num as int),
                    ((frames as int) * (den as int)) % (num as int) >= 0,
            ;
            assert((frames as int) * (den as int) <= (MAX_SAMPLES as int) * (
            MAX_FACTOR_PART as int)) by (nonlinear_arith)
                requires
                    0 <= frames <= MAX_SAMPLES,
                    0 <= den <= MAX_FACTOR_PART,
            ;
        }
        let pos: u128 = (i as u128) * num;
        let ip_w: u128 = pos / den;
        let rem: u128 = pos % den;
        proof {
            lemma_fundamental_div_mod(pos as int, den as int);
            assert((pos as int) / (den as int) < frames as int) by (nonlinear_arith)
                requires
                    (pos as int) < (frames as int) * (den as int),
                    pos >= 0,
                    den >= 1,
                    (pos as int) == (den as int) * ((pos as int) / (den as int)) + (
                    pos as int) % (den as int),
                    (pos as int) % (den as int) >= 0,
                    (pos as int) / (den as int) >= 0,
            ;
            vstd::arithmetic::div_mod::lemma_div_pos_is_pos(pos as int, den as int);
        }
        let ip: usize = ip_w as usize;
        proof {
            assert((ip as int) * (c as int) + (c as int) <= (frames as int) * (c as int))
                by (nonlinear_arith)
                requires
                    (ip as int) < (frames as int),
                    c >= 1,
            ;
        }
        let base: usize = ip * c;
        let mut ch: usize = 0;
        while ch < c
            invariant
                1 <= c,
                ch <= c,
                frames == samples@.len() as int / (c as int),
                (frames as int) * (c as int) == samples@.len(),
                samples@.len() <= MAX_SAMPLES,
                all_in_range(samples@),
                1 <= num <= MAX_FACTOR_PART,
                1 <= den <= MAX_FACTOR_PART,
                new_frames == spec_new_frames(frames as int, num as int, den as int),
                new_frames * (c as int) <= MAX_SAMPLES,
                i < new_frames,
                pos == (i as int) * (num as int),
                ip == (pos as int) / (den as int),
                rem == (pos as int) % (den as int),
                ip < frames,
                base == (ip as int) * (c as int),
                base + c <= samples@.len(),
                out@.len() == i * (c as int) + ch,
                forall|j: int|
                    0 <= j < out@.len() ==> out@[j] == spec_resample_at(
                        samples@,
                        c as int,
                        num as int,
                        den as int,
                        j / (c as int),
                        j % (c as int),
                    ),
                all_in_range(out@),
            decreases c - ch,
        {
            let idx1: usize = base + ch;
            let s0: i64 = samples[idx1];
            let idx2: usize = idx1 + c;
            let s1: i64 = if idx2 < samples.len() {
                samples[idx2]
            } else {
                0
            };
            proof {
                vstd::arithmetic::div_mod::lemma_mod_division_less_than_divisor(
                    pos as int,
                    den as int,
                );
                assert(((ip as int) + 1) * (c as int) + (ch as int) == idx2)
                    by (nonlinear_arith)
                    requires
                        idx2 == (ip as int) * (c as int) + (ch as int) + (c as int),
                ;
            }
            let v: i64 = interp(s0, s1, rem, den);
            proof {
                let ji = out@.len() as int;
                assert(ji == (i as int) * (c as int) + (ch as int));
                lemma_fundamental_div_mod_converse_div(ji, c as int, i as int, ch as int);
                lemma_fundamental_div_mod_converse_mod(ji, c as int, i as int, ch as int);
                assert(v == spec_resample_at(
                    samples@,
                    c as int,
                    num as int,
                    den as int,
                    i as int,
                    ch as int,
                ));
            }
            out.push(v);
            ch += 1;
        }
        proof {
            assert((i as int) * (c as int) + (c as int) == (i + 1) * (c as int))
                by (nonlinear_arith);
            assert((i + 1) * (c as int) <= new_frames * (c as int)) by (nonlinear_arith)
                requires
                    i + 1 <= new_frames,
                    c >= 1,
            ;
        }
        i += 1;
    }
    out
}

/// Changes speed and pitch by the positive factor num / den: a factor above
/// one shortens the buffer, below one lengthens it.  The new frame count is
/// floor(frames / factor); each output frame reads the source at the
/// corresponding fractional position with linear interpolation.
pub fn speed(a: &Buffer, factor: &Rat) -> (r: Result<Buffer, Error>)
    requires
        a.wf(),
        factor.wf(),
    ensures
        match r {
            Ok(out) => {
                &&& factor.num >= 1
                &&& out.wf()
                &&& out.fmt == a.fmt
                &&& out.spec_frames() == spec_new_frames(
                    a.spec_frames(),
                    factor.num as int,
                    factor.den as int,
                )
                &&& out.samples@.len() == out.spec_frames() * (a.fmt.channels as int)
                &&& forall|j: int|
                    0 <= j < out.samples@.len() ==> out.samples@[j] == spec_resample_at(
                        a.samples@,
                        a.fmt.channels as int,
                        factor.num as int,
                        factor.den as int,
                        j / (a.fmt.channels as int),
                        j % (a.fmt.channels as int),
                    )
            },
            Err(e) => {
                &&& e == Error::InvalidParameter
                &&& (factor.num == 0 || spec_new_frames(
                    a.spec_frames(),
                    factor.num as int,
                    factor.den as int,
                ) * (a.fmt.channels as int) > MAX_SAMPLES)
            },
        },
{
    if factor.num == 0 {
        return Err(Error::InvalidParameter);
    }
    let frames = a.frames();
    let c = a.fmt.channels;
    proof {
        vstd::arithmetic::div_mod::lemma_div_nonincreasing(
            a.samples@.len() as int,
            c as int,
        );
        vstd::arithmetic::div_mod::lemma_div_pos_is_pos(a.samples@.len() as int, c as int);
    }
    proof {
        assert((frames as int) * (factor.den as int) <= (MAX_SAMPLES as int) * 0xffff_ffff_ffff_ffff)
            by (nonlinear_arith)
            requires
                0 <= frames <= MAX_SAMPLES,
                factor.den <= 0xffff_ffff_ffff_ffff,
        ;
    }
    let wide: u128 = (frames as u128) * (factor.den as u128);
    let nf_w: u128 = wide / (factor.num as u128);
    proof {
        vstd::arithmetic::div_mod::lemma_div_pos_is_pos(wide as int, factor.num as int);
    }
    if nf_w > (MAX_SAMPLES / c) as u128 {
        proof {
            let nfi = nf_w as int;
            let ci = c as int;
            lemma_fundamental_div_mod(MAX_SAMPLES as int, ci);
            assert(nfi * ci > MAX_SAMPLES) by (nonlinear_arith)
                requires
                    nfi > (MAX_SAMPLES as int) / ci,
                    ci >= 1,
                    MAX_SAMPLES as int == ci * (MAX_SAMPLES as int / ci) + MAX_SAMPLES as int
                        % ci,
                    MAX_SAMPLES as int % ci < ci,
            ;
        }
        return Err(Error::InvalidParameter);
    }
    let new_frames: usize = nf_w as usize;
    proof {
        let nfi = new_frames as int;
        let ci = c as int;
        lemma_fundamental_div_mod(MAX_SAMPLES as int, ci);
        assert(nfi * ci <= MAX_SAMPLES) by (nonlinear_arith)
            requires
                nfi <= (MAX_SAMPLES as int) / ci,
                ci >= 1,
                MAX_SAMPLES as int == ci * (MAX_SAMPLES as int / ci) + MAX_SAMPLES as int % ci,
                MAX_SAMPLES as int % ci >= 0,
        ;
    }
    let out = resample(&a.samples, c, factor.num as u128, factor.den as u128, new_frames);
    proof {
        lemma_mod_multiples_basic(new_frames as int, c as int);
        let m = (new_frames as int) * (c as int);
        vstd::arithmetic::div_mod::lemma_div_multiples_vanish(new_frames as int, c as int);
        assert((c as int) * (new_frames as int) == (new_frames as int) * (c as int))
            by (nonlinear_arith);
    }
    Ok(Buffer { samples: out, fmt: a.fmt })
}

} // verus!
