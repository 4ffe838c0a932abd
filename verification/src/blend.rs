use vstd::prelude::*;
use vstd::string::StringSliceAdditionalSpecFns;
use crate::buffer::{peak_of, Buffer, SCALE};
use crate::error::Error;
use crate::fx::apply_fx_with_rng;
use crate::maxgain::maxgain;
use crate::rng::rng_below;
use crate::strutil::str_eq;

verus! {

/// The blender names the registry holds, in lexicographic order.
pub open spec fn spec_known_blender(name: Seq<u8>) -> bool {
    ||| name == "delayer".spec_bytes()
    ||| name == "m4ze".spec_bytes()
    ||| name == "mosaic".spec_bytes()
    ||| name == "outbreaker".spec_bytes()
    ||| name == "xfade".spec_bytes()
}

/// The registry keys, in the fixed lexicographic order the random choice
/// draws over.
pub fn get_blenders() -> (r: Vec<String>)
    ensures
        r@.len() == 5,
        r@[0]@ == "delayer"@,
        r@[1]@ == "m4ze"@,
        r@[2]@ == "mosaic"@,
        r@[3]@ == "outbreaker"@,
        r@[4]@ == "xfade"@,
{
    let mut v: Vec<String> = Vec::new();
    v.push("delayer".to_owned());
    v.push("m4ze".to_owned());
    v.push("mosaic".to_owned());
    v.push("outbreaker".to_owned());
    v.push("xfade".to_owned());
    v
}

/// Runs the blender of the given index in the registry order.
fn run_blender(wavs: &Vec<Buffer>, rng: &mut rand::rngs::StdRng, ix: u64) -> (r: Result<
    Buffer,
    Error,
>)
    requires
        forall|k: int| 0 <= k < wavs@.len() ==> (#[trigger] wavs@[k]).wf(),
        ix < 5,
    ensures
        match r {
            Ok(out) => out.wf() && wavs@.len() >= 1 && out.fmt == wavs@[0].fmt,
            Err(e) => {
                &&& e != Error::UnknownBlender && e != Error::UnknownEffect
                &&& (e == Error::EmptyInput ==> wavs@.len() < 3)
                &&& (ix == 4 ==> !crate::xfade::spec_xfade_ready(wavs@))
            },
        },
{
    if ix == 0 {
        crate::delayer::delayer(wavs, rng)
    } else if ix == 1 {
        crate::m4ze::m4ze(wavs, rng)
    } else if ix == 2 {
        crate::blender_mosaic::mosaic(wavs, rng)
    } else if ix == 3 {
        crate::outbreaker::outbreaker(wavs, rng)
    } else {
        crate::xfade::xfade(wavs, rng)
    }
}

/// The dispatcher: looks the blender up by name ("rand" draws one key, in
/// the fixed registry order), runs it, optionally applies one named
/// post-effect, and always peak-normalizes the result before returning.
pub fn blend(
    wavs: &Vec<Buffer>,
    rng: &mut rand::rngs::StdRng,
    blender: &str,
    post_fx: Option<&str>,
) -> (r: Result<Buffer, Error>)
    requires
        forall|k: int| 0 <= k < wavs@.len() ==> (#[trigger] wavs@[k]).wf(),
    ensures
        match r {
            Ok(out) => {
                &&& (spec_known_blender(blender.spec_bytes()) || blender.spec_bytes()
                    == "rand".spec_bytes())
                &&& out.wf()
                &&& wavs@.len() >= 1
                &&& out.fmt == wavs@[0].fmt
                &&& peak_of(out.samples@) <= SCALE
                // the dispatcher always peak-normalizes last: the result is
                // at exactly full scale, or silent
                &&& (peak_of(out.samples@) == SCALE || peak_of(out.samples@) == 0)
            },
            Err(e) => {
                &&& (e == Error::UnknownBlender <==> !(spec_known_blender(
                    blender.spec_bytes(),
                ) || blender.spec_bytes() == "rand".spec_bytes()))
                &&& (e == Error::UnknownEffect ==> post_fx is Some && !crate::fx::spec_known_fx(
                    post_fx->0.spec_bytes(),
                ))
                &&& (e == Error::EmptyInput ==> wavs@.len() < 3)
                // success is owed: the cross-fade blender on ready inputs
                // cannot fail, and the closing normalization never does
                &&& !(blender.spec_bytes() == "xfade".spec_bytes()
                    && crate::xfade::spec_xfade_ready(wavs@) && post_fx is None)
            },
        },
{
    let is_xfade = str_eq(blender, "xfade");
    let out = if is_xfade {
        run_blender(wavs, rng, 4)
    } else if str_eq(blender, "rand") {
        let ix = rng_below(rng, 5);
        run_blender(wavs, rng, ix)
    } else if str_eq(blender, "delayer") {
        run_blender(wavs, rng, 0)
    } else if str_eq(blender, "m4ze") {
        run_blender(wavs, rng, 1)
    } else if str_eq(blender, "mosaic") {
        run_blender(wavs, rng, 2)
    } else if str_eq(blender, "outbreaker") {
        run_blender(wavs, rng, 3)
    } else {
        return Err(Error::UnknownBlender);
    };
    let composed = match out {
        Ok(v) => v,
        Err(e) => {
            return Err(e);
        },
    };
    let finished = match post_fx {
        Some(fx) => {
            match apply_fx_with_rng(&composed, rng, fx) {
                Ok(v) => v,
                Err(e) => {
                    return Err(e);
                },
            }
        },
        None => composed,
    };
    proof {
        crate::maxgain::lemma_peak_zero(finished.samples@);
        assert(forall|j: int|
            0 <= j < finished.samples@.len() ==> crate::sample::abs_i(
                #[trigger] finished.samples@[j] as int,
            ) <= SCALE as int);
        crate::maxgain::lemma_peak_le(finished.samples@, SCALE as int);
    }
    Ok(maxgain(&finished))
}

} // verus!
