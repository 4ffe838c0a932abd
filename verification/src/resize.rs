use vstd::prelude::*;
use crate::buffer::{Buffer, MAX_SAMPLES};
use crate::error::Error;
use crate::rat::Rat;
use crate::speed::{resample, spec_new_frames, spec_resample_at};
use vstd::arithmetic::div_mod::lemma_fundamental_div_mod;

verus! {

/// The resample numerator resize uses: the speed factor is the current
/// duration over the target duration, frames * nd.den / (rate * nd.num).
pub open spec fn spec_resize_num(a: Buffer, nd: Rat) -> int {
    a.spec_frames() * (nd.den as int)
}

pub open spec fn spec_resize_den(a: Buffer, nd: Rat) -> int {
    (a.fmt.sample_rate as int) * (nd.num as int)
}

/// Stretches or shrinks a buffer to the given duration in seconds, through
/// the fractional-index resampler.  Fails on a zero target duration; an
/// empty buffer is returned unchanged.
pub fn resize(a: &Buffer, new_duration: &Rat) -> (r: Result<Buffer, Error>)
    requires
        a.wf(),
        new_duration.wf(),
    ensures
        match r {
            Ok(out) => {
                &&& new_duration.num >= 1
                &&& out.wf()
                &&& out.fmt == a.fmt
                &&& (a.spec_frames() == 0 ==> out.samples@ == a.samples@)
                &&& (a.spec_frames() > 0 ==> {
                    &&& out.spec_frames() == spec_new_frames(
                        a.spec_frames(),
                        spec_resize_num(*a, *new_duration),
                        spec_resize_den(*a, *new_duration),
                    )
                    &&& out.samples@.len() == out.spec_frames() * (a.fmt.channels as int)
                    &&& forall|j: int|
                        0 <= j < out.samples@.len() ==> out.samples@[j] == spec_resample_at(
                            a.samples@,
                            a.fmt.channels as int,
                            spec_resize_num(*a, *new_duration),
                            spec_resize_den(*a, *new_duration),
                            j / (a.fmt.channels as int),
                            j % (a.fmt.channels as int),
                        )
                })
            },
            Err(e) => {
                &&& e == Error::InvalidParameter
                &&& (new_duration.num == 0 || (a.spec_frames() > 0 && spec_new_frames(
                    a.spec_frames(),
                    spec_resize_num(*a, *new_duration),
                    spec_resize_den(*a, *new_duration),
                ) * (a.fmt.channels as int) > MAX_SAMPLES))
            },
        },
{
    if new_duration.num == 0 {
        return Err(Error::InvalidParameter);
    }
    let frames = a.frames();
    proof {
        vstd::arithmetic::div_mod::lemma_div_nonincreasing(
            a.samples@.len() as int,
            a.fmt.channels as int,
        );
        vstd::arithmetic::div_mod::lemma_div_pos_is_pos(
            a.samples@.len() as int,
            a.fmt.channels as int,
        );
    }
    if frames == 0 {
        return Ok(a.dup());
    }
    let c = a.fmt.channels;
    proof {
        assert((frames as int) * (new_duration.den as int) <= (MAX_SAMPLES as int)
            * 0xffff_ffff_ffff_ffff && (frames as int) * (new_duration.den as int) >= 1)
            by (nonlinear_arith)
            requires
                1 <= frames <= MAX_SAMPLES,
                1 <= new_duration.den <= 0xffff_ffff_ffff_ffff,
        ;
        assert((a.fmt.sample_rate as int) * (new_duration.num as int) <= 0x100000int
            * 0xffff_ffff_ffff_ffff && (a.fmt.sample_rate as int) * (new_duration.num as int)
            >= 1) by (nonlinear_arith)
            requires
                1 <= a.fmt.sample_rate <= 0x100000,
                1 <= new_duration.num <= 0xffff_ffff_ffff_ffff,
        ;
    }
    let num: u128 = (frames as u128) * (new_duration.den as u128);
    let den: u128 = (a.fmt.sample_rate as u128) * (new_duration.num as u128);
    proof {
        assert((frames as int) * (den as int) <= (MAX_SAMPLES as int) * (0x100000int
            * 0xffff_ffff_ffff_ffff)) by (nonlinear_arith)
            requires
                1 <= frames <= MAX_SAMPLES,
                1 <= den <= 0x100000int * 0xffff_ffff_ffff_ffff,
        ;
    }
    let wide: u128 = (frames as u128) * den;
    let nf_w: u128 = wide / num;
    proof {
        vstd::arithmetic::div_mod::lemma_div_pos_is_pos(wide as int, num as int);
    }
    if nf_w > (MAX_SAMPLES / c) as u128 {
        proof {
            let nfi = nf_w as int;
            let ci = c as int;
            lemma_fundamental_div_mod(MAX_SAMPLES as int, ci);
            assert(nfi * ci > MAX_SAMPLES) by (nonlinear_arith)
                requires
                    nfi > (MAX_SAMPLES as int) / ci,
                    ci >= 1,
                    MAX_SAMPLES as int == ci * ((MAX_SAMPLES as int) / ci) + (
                    MAX_SAMPLES as int) % ci,
                    (MAX_SAMPLES as int) % ci < ci,
            ;
        }
        return Err(Error::InvalidParameter);
    }
    let new_frames: usize = nf_w as usize;
    proof {
        let nfi = new_frames as int;
        let ci = c as int;
        lemma_fundamental_div_mod(MAX_SAMPLES as int, ci);
        assert(nfi * ci <= MAX_SAMPLES) by (nonlinear_arith)
            requires
                nfi <= (MAX_SAMPLES as int) / ci,
                ci >= 1,
                MAX_SAMPLES as int == ci * ((MAX_SAMPLES as int) / ci) + (MAX_SAMPLES as int)
                    % ci,
                (MAX_SAMPLES as int) % ci >= 0,
        ;
    }
    let out = resample(&a.samples, c, num, den, new_frames);
    proof {
        vstd::arithmetic::div_mod::lemma_mod_multiples_basic(new_frames as int, c as int);
        vstd::arithmetic::div_mod::lemma_div_multiples_vanish(new_frames as int, c as int);
        assert((c as int) * (new_frames as int) == (new_frames as int) * (c as int))
            by (nonlinear_arith);
    }
    Ok(Buffer { samples: out, fmt: a.fmt })
}

} // verus!
