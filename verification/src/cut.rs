use vstd::prelude::*;
use crate::buffer::{copy_range, lemma_subrange_in_range, Buffer, MAX_SAMPLES};
use crate::error::Error;
use crate::time::Time;

verus! {

/// The frame index cut starts at, for a given buffer.
pub open spec fn spec_cut_start(a: Buffer, start: Time) -> int {
    start.spec_frames(a.spec_frames(), a.fmt.sample_rate as int)
}

/// The frame index cut ends at (exclusive), capped at the buffer's end.
pub open spec fn spec_cut_end(a: Buffer, start: Time, duration: Time) -> int {
    let s = spec_cut_start(a, start);
    let n = duration.spec_frames(a.spec_frames(), a.fmt.sample_rate as int);
    if s + n <= a.spec_frames() {
        s + n
    } else {
        a.spec_frames()
    }
}

/// Extracts the segment of the given start and duration, both resolved
/// against the buffer's own duration and rounded to whole frames.  Fails
/// with OutOfRange when the start lies at or beyond the buffer's end.
pub fn cut(a: &Buffer, start: &Time, duration: &Time) -> (r: Result<Buffer, Error>)
    requires
        a.wf(),
        start.wf(),
        duration.wf(),
    ensures
        match r {
            Ok(out) => {
                &&& spec_cut_start(*a, *start) < a.spec_frames()
                &&& out.wf()
                &&& out.fmt == a.fmt
                &&& out.samples@ == a.samples@.subrange(
                    spec_cut_start(*a, *start) * (a.fmt.channels as int),
                    spec_cut_end(*a, *start, *duration) * (a.fmt.channels as int),
                )
                &&& out.spec_frames() == spec_cut_end(*a, *start, *duration) - spec_cut_start(
                    *a,
                    *start,
                )
            },
            Err(e) => {
                &&& e == Error::OutOfRange
                &&& spec_cut_start(*a, *start) >= a.spec_frames()
            },
        },
{
    let frames = a.frames() as u64;
    let rate = a.fmt.sample_rate as u64;
    proof {
        vstd::arithmetic::div_mod::lemma_div_nonincreasing(
            a.samples@.len() as int,
            a.fmt.channels as int,
        );
        vstd::arithmetic::div_mod::lemma_div_pos_is_pos(
            a.samples@.len() as int,
            a.fmt.channels as int,
        );
    }
    let sf_w = start.resolve_frames(frames, rate);
    if sf_w >= frames as u128 {
        return Err(Error::OutOfRange);
    }
    let sf = sf_w as u64;
    let nf_w = duration.resolve_frames(frames, rate);
    let ef: u64 = if nf_w <= (frames - sf) as u128 {
        sf + (nf_w as u64)
    } else {
        frames
    };
    let c = a.fmt.channels;
    proof {
        let fi = frames as int;
        let ci = c as int;
        assert(fi * ci == a.samples@.len()) by {
            vstd::arithmetic::div_mod::lemma_fundamental_div_mod(a.samples@.len() as int, ci);
            assert(ci * fi == fi * ci) by (nonlinear_arith);
        }
        assert((sf as int) * ci <= (ef as int) * ci <= fi * ci) by (nonlinear_arith)
            requires
                sf as int <= ef as int <= fi,
                ci >= 1,
        ;
        assert(((ef as int) - (sf as int)) * ci == (ef as int) * ci - (sf as int) * ci)
            by (nonlinear_arith);
    }
    let lo: usize = (sf as usize) * c;
    let hi: usize = (ef as usize) * c;
    let seg = copy_range(&a.samples, lo, hi);
    proof {
        lemma_subrange_in_range(a.samples@, lo as int, hi as int);
        vstd::arithmetic::div_mod::lemma_mod_multiples_basic(ef as int - sf as int, c as int);
        let m = (ef as int - sf as int) * (c as int);
        assert(seg@.len() == m);
        assert(m % (c as int) == 0);
        assert(m / (c as int) == ef as int - sf as int) by {
            vstd::arithmetic::div_mod::lemma_div_multiples_vanish(
                ef as int - sf as int,
                c as int,
            );
            assert((c as int) * (ef as int - sf as int) == (ef as int - sf as int) * (
            c as int)) by (nonlinear_arith);
        }
    }
    Ok(Buffer { samples: seg, fmt: a.fmt })
}

} // verus!
