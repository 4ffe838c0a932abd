use vstd::prelude::*;
use crate::buffer::{Buffer, MAX_SAMPLES};
use crate::error::Error;
use crate::fade::fade;
use crate::gain::{AMP_0DB, AMP_NEG30DB};
use crate::pick::pick;
use crate::rng::rng_coin;
use crate::time::Time;
use crate::x::x;

verus! {

/// Repeats a random sixteenth of the first input, optionally faded out,
/// sixteen times in all.  It succeeds on every non-empty first input of
/// bounded size, whatever the draws.
pub fn samplicat(wavs: &Vec<Buffer>, rng: &mut rand::rngs::StdRng) -> (r: Result<Buffer, Error>)
    requires
        forall|k: int| 0 <= k < wavs@.len() ==> (#[trigger] wavs@[k]).wf(),
    ensures
        match r {
            Ok(out) => out.wf() && wavs@.len() >= 1 && out.fmt == wavs@[0].fmt,
            Err(e) => {
                &&& e != Error::UnknownBlender && e != Error::UnknownEffect
                &&& (e == Error::EmptyInput <==> wavs@.len() < 1)
                &&& !(wavs@.len() >= 1 && wavs@[0].spec_frames() >= 1
                    && wavs@[0].samples@.len() <= MAX_SAMPLES / 16)
            },
        },
{
    if wavs.len() < 1 {
        return Err(Error::EmptyInput);
    }
    let sixteenth = Time::fract(1, 16);
    let seed_cut = match pick(&wavs[0], &sixteenth) {
        Ok(v) => v,
        Err(e) => {
            proof {
                if wavs@[0].spec_frames() >= 1 {
                    lemma_sixteenth_fits(wavs@[0]);
                }
            }
            return Err(e);
        },
    };
    let mut a = match x(&seed_cut, 4) {
        Ok(v) => v,
        Err(e) => {
            proof {
                lemma_len_is_frames_times_channels(wavs@[0]);
                lemma_len_is_frames_times_channels(seed_cut);
                lemma_mul_step(
                    seed_cut.spec_frames(),
                    wavs@[0].spec_frames(),
                    4,
                    wavs@[0].fmt.channels as int,
                );
            }
            return Err(e);
        },
    };
    proof {
        lemma_len_is_frames_times_channels(wavs@[0]);
        lemma_len_is_frames_times_channels(seed_cut);
        crate::x::lemma_repeat_len(seed_cut.samples@, 4);
    }
    if rng_coin(rng, 1, 2) {
        a = fade(&a, AMP_0DB, AMP_NEG30DB);
    }
    match x(&a, 4) {
        Ok(v) => Ok(v),
        Err(e) => {
            proof {
                lemma_mul_step(
                    seed_cut.spec_frames(),
                    wavs@[0].spec_frames(),
                    16,
                    wavs@[0].fmt.channels as int,
                );
                assert(4 * (4 * (seed_cut.spec_frames() * (wavs@[0].fmt.channels as int)))
                    == 16 * (seed_cut.spec_frames() * (wavs@[0].fmt.channels as int)))
                    by (nonlinear_arith);
            }
            Err(e)
        },
    }
}

/// A well-formed buffer's sample count is its frame count times its
/// channel count.
proof fn lemma_len_is_frames_times_channels(a: Buffer)
    requires
        a.wf(),
    ensures
        a.samples@.len() == a.spec_frames() * (a.fmt.channels as int),
        a.spec_frames() >= 0,
{
    let c = a.fmt.channels as int;
    let len = a.samples@.len() as int;
    vstd::arithmetic::div_mod::lemma_fundamental_div_mod(len, c);
    vstd::arithmetic::div_mod::lemma_div_pos_is_pos(len, c);
    assert(c * (len / c) == (len / c) * c) by (nonlinear_arith);
}

/// A sixteenth of a non-empty buffer fits inside it: round(f / 16) <= f.
proof fn lemma_sixteenth_fits(a: Buffer)
    requires
        a.wf(),
        a.spec_frames() >= 1,
    ensures
        crate::time::round_div(a.spec_frames() * 1, 16) <= a.spec_frames(),
        crate::time::round_div(a.spec_frames() * 1, 16) >= 0,
{
    let f = a.spec_frames();
    assert(f * 1 == f) by (nonlinear_arith);
    assert(2 * f + 16 <= 32 * f) by (nonlinear_arith)
        requires
            f >= 1,
    ;
    vstd::arithmetic::div_mod::lemma_div_is_ordered(2 * f + 16, 32 * f, 32);
    vstd::arithmetic::div_mod::lemma_div_multiples_vanish(f, 32);
    assert(32 * f == f * 32 && f * 32 == 32 * f) by (nonlinear_arith);
    vstd::arithmetic::div_mod::lemma_div_pos_is_pos(2 * f + 16, 32);
}

/// c repetitions of a slice of at most f frames stay within c times the
/// source's sample count.
proof fn lemma_mul_step(nf: int, f: int, c: int, ch: int)
    requires
        0 <= nf <= f,
        c >= 1,
        ch >= 1,
    ensures
        c * (nf * ch) <= c * (f * ch),
{
    assert(c * (nf * ch) <= c * (f * ch)) by (nonlinear_arith)
        requires
            0 <= nf <= f,
            c >= 1,
            ch >= 1,
    ;
}

} // verus!
