use vstd::prelude::*;
use vstd::string::StringSliceAdditionalSpecFns;
use crate::bitcrush::bitcrush;
use crate::buffer::Buffer;
use crate::error::Error;
use crate::flanger::flanger;
use crate::highpass::highpass;
use crate::lowpass::lowpass;
use crate::rng::{rng_below, rng_range_incl};
use crate::strutil::str_eq;

verus! {

/// The effect names the dispatcher recognises, "rand" included.
pub open spec fn spec_known_fx(name: Seq<u8>) -> bool {
    ||| name == "rand".spec_bytes()
    ||| name == "highpass".spec_bytes()
    ||| name == "lowpass".spec_bytes()
    ||| name == "bitcrush".spec_bytes()
    ||| name == "flanger".spec_bytes()
}

/// The effects the random choice draws from.
pub fn get_fx_list() -> (r: Vec<String>)
    ensures
        r@.len() == 2,
        r@[0]@ == "bitcrush"@,
        r@[1]@ == "flanger"@,
{
    let mut v: Vec<String> = Vec::new();
    v.push("bitcrush".to_owned());
    v.push("flanger".to_owned());
    v
}

/// Draws one of the random-choice effect names.
pub fn get_rand_fx(rng: &mut rand::rngs::StdRng) -> (r: String)
    ensures
        r@ == "bitcrush"@ || r@ == "flanger"@,
{
    let k = rng_below(rng, 2);
    if k == 0 {
        "bitcrush".to_owned()
    } else {
        "flanger".to_owned()
    }
}

/// Applies the bitcrush post-effect with a drawn semitone shift.
fn drawn_bitcrush(a: &Buffer, rng: &mut rand::rngs::StdRng) -> (r: Buffer)
    requires
        a.wf(),
    ensures
        r.wf(),
        r.fmt == a.fmt,
        r.samples@.len() == a.samples@.len(),
{
    let st = rng_range_incl(rng, 1, 45);
    match bitcrush(a, st as u32) {
        Ok(v) => v,
        Err(_) => {
            proof {
                assert(false);
            }
            a.dup()
        },
    }
}

/// Applies the flanger post-effect with drawn delay, depth and rate.
fn drawn_flanger(a: &Buffer, rng: &mut rand::rngs::StdRng) -> (r: Buffer)
    requires
        a.wf(),
    ensures
        r.wf(),
        r.fmt == a.fmt,
        r.samples@.len() == a.samples@.len(),
{
    let delay_us = rng_range_incl(rng, 100, 600);
    let depth_us = rng_range_incl(rng, 100, 9990);
    let rate_mhz = rng_range_incl(rng, 6666, 666000);
    match flanger(a, delay_us, depth_us, rate_mhz, 0) {
        Ok(v) => v,
        Err(_) => {
            proof {
                assert(false);
            }
            a.dup()
        },
    }
}

/// Applies one named post-effect, drawing its parameters from the shared
/// generator; "rand" first draws the effect itself.  Unknown names fail.
pub fn apply_fx_with_rng(a: &Buffer, rng: &mut rand::rngs::StdRng, fx: &str) -> (r: Result<
    Buffer,
    Error,
>)
    requires
        a.wf(),
    ensures
        match r {
            Ok(out) => {
                &&& spec_known_fx(fx.spec_bytes())
                &&& out.wf()
                &&& out.fmt == a.fmt
                &&& out.samples@.len() == a.samples@.len()
            },
            Err(e) => {
                &&& e == Error::UnknownEffect
                &&& !spec_known_fx(fx.spec_bytes())
            },
        },
{
    if str_eq(fx, "rand") {
        let k = rng_below(rng, 2);
        if k == 0 {
            Ok(drawn_bitcrush(a, rng))
        } else {
            Ok(drawn_flanger(a, rng))
        }
    } else if str_eq(fx, "highpass") {
        let f = rng_range_incl(rng, 4000, 5000);
        Ok(highpass(a, f as u32))
    } else if str_eq(fx, "lowpass") {
        let f = rng_range_incl(rng, 300, 999);
        Ok(lowpass(a, f as u32))
    } else if str_eq(fx, "bitcrush") {
        Ok(drawn_bitcrush(a, rng))
    } else if str_eq(fx, "flanger") {
        Ok(drawn_flanger(a, rng))
    } else {
        Err(Error::UnknownEffect)
    }
}

/// Draws an effect between the random-choice candidates and applies it.
pub fn apply_rand_fx_with_rng(a: &Buffer, rng: &mut rand::rngs::StdRng) -> (r: Result<
    Buffer,
    Error,
>)
    requires
        a.wf(),
    ensures
        match r {
            Ok(out) => {
                &&& out.wf()
                &&& out.fmt == a.fmt
                &&& out.samples@.len() == a.samples@.len()
            },
            Err(_) => false,
        },
{
    let k = rng_below(rng, 2);
    if k == 0 {
        Ok(drawn_bitcrush(a, rng))
    } else {
        Ok(drawn_flanger(a, rng))
    }
}

} // verus!
