use vstd::prelude::*;
use crate::buffer::{copy_range, lemma_subrange_in_range, Buffer};
use crate::error::Error;
use crate::rng::{rng_below, rng_from_entropy};
use crate::time::Time;
use vstd::arithmetic::div_mod::{
    lemma_div_multiples_vanish,
    lemma_fundamental_div_mod,
    lemma_mod_multiples_basic,
};

verus! {

/// Extracts a segment of the given duration starting at a uniformly random
/// frame offset.  Fails with OutOfRange when the duration exceeds the
/// buffer's own, or the buffer is empty.
pub fn pick_with_rng(a: &Buffer, rng: &mut rand::rngs::StdRng, duration: &Time) -> (r: Result<
    Buffer,
    Error,
>)
    requires
        a.wf(),
        duration.wf(),
    ensures
        match r {
            Ok(out) => {
                let nf = duration.spec_frames(a.spec_frames(), a.fmt.sample_rate as int);
                &&& nf <= a.spec_frames()
                &&& a.spec_frames() >= 1
                &&& out.wf()
                &&& out.fmt == a.fmt
                &&& out.spec_frames() == nf
                &&& exists|s: int|
                    0 <= s <= a.spec_frames() - nf && out.samples@ == a.samples@.subrange(
                        #[trigger] (s * (a.fmt.channels as int)),
                        (s + nf) * (a.fmt.channels as int),
                    )
            },
            Err(e) => {
                let nf = duration.spec_frames(a.spec_frames(), a.fmt.sample_rate as int);
                &&& e == Error::OutOfRange
                &&& (nf > a.spec_frames() || a.spec_frames() == 0)
            },
        },
{
    let frames = a.frames() as u64;
    let rate = a.fmt.sample_rate as u64;
    proof {
        vstd::arithmetic::div_mod::lemma_div_nonincreasing(
            a.samples@.len() as int,
            a.fmt.channels as int,
        );
        vstd::arithmetic::div_mod::lemma_div_pos_is_pos(
            a.samples@.len() as int,
            a.fmt.channels as int,
        );
    }
    let nf_w = duration.resolve_frames(frames, rate);
    if nf_w > frames as u128 {
        return Err(Error::OutOfRange);
    }
    let nf = nf_w as u64;
    if frames == 0 {
        return Err(Error::OutOfRange);
    }
    let start = rng_below(rng, frames - nf + 1);
    let c = a.fmt.channels;
    proof {
        let fi = frames as int;
        let ci = c as int;
        assert(fi * ci == a.samples@.len()) by {
            lemma_fundamental_div_mod(a.samples@.len() as int, ci);
            assert(ci * fi == fi * ci) by (nonlinear_arith);
        }
        assert((start as int) * ci <= ((start + nf) as int) * ci <= fi * ci)
            by (nonlinear_arith)
            requires
                (start as int) <= (start as int) + (nf as int) <= fi,
                ci >= 1,
        ;
        assert(((start + nf) as int) * ci - (start as int) * ci == (nf as int) * ci)
            by (nonlinear_arith);
    }
    let lo: usize = (start as usize) * c;
    let hi: usize = ((start + nf) as usize) * c;
    let seg = copy_range(&a.samples, lo, hi);
    proof {
        lemma_subrange_in_range(a.samples@, lo as int, hi as int);
        lemma_mod_multiples_basic(nf as int, c as int);
        lemma_div_multiples_vanish(nf as int, c as int);
        assert((c as int) * (nf as int) == (nf as int) * (c as int)) by (nonlinear_arith);
        let s = start as int;
        assert(0 <= s <= a.spec_frames() - nf);
        assert(seg@ == a.samples@.subrange(
            s * (a.fmt.channels as int),
            (s + nf) * (a.fmt.channels as int),
        ));
    }
    Ok(Buffer { samples: seg, fmt: a.fmt })
}

/// Like pick_with_rng, drawing from a fresh system-seeded generator.
pub fn pick(a: &Buffer, duration: &Time) -> (r: Result<Buffer, Error>)
    requires
        a.wf(),
        duration.wf(),
    ensures
        match r {
            Ok(out) => {
                let nf = duration.spec_frames(a.spec_frames(), a.fmt.sample_rate as int);
                &&& nf <= a.spec_frames()
                &&& a.spec_frames() >= 1
                &&& out.wf()
                &&& out.fmt == a.fmt
                &&& out.spec_frames() == nf
            },
            Err(e) => {
                let nf = duration.spec_frames(a.spec_frames(), a.fmt.sample_rate as int);
                &&& e == Error::OutOfRange
                &&& (nf > a.spec_frames() || a.spec_frames() == 0)
            },
        },
{
    let mut rng = rng_from_entropy();
    pick_with_rng(a, &mut rng, duration)
}

} // verus!
