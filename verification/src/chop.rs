use vstd::prelude::*;
use crate::buffer::{copy_range, lemma_subrange_in_range, Buffer, MAX_SAMPLES};
use crate::error::Error;
use crate::time::{round_div, Time};
use crate::x::{repeat_seq, x};

verus! {

/// The frame count of the slice chop repeats: one n-th of the buffer,
/// rounded to the nearest frame and capped at the buffer's end.
pub open spec fn spec_chop_frames(a: Buffer, n: int) -> int {
    let e = round_div(a.spec_frames(), n);
    if e <= a.spec_frames() {
        e
    } else {
        a.spec_frames()
    }
}

/// The stutter: cuts the first 1/n of the buffer and repeats it n times,
/// so the total duration stays roughly the same.
pub fn chop(a: &Buffer, n: u32) -> (r: Result<Buffer, Error>)
    requires
        a.wf(),
    ensures
        match r {
            Ok(out) => {
                &&& n >= 1
                &&& a.spec_frames() >= 1
                &&& out.wf()
                &&& out.fmt == a.fmt
                &&& out.samples@ == repeat_seq(
                    a.samples@.subrange(
                        0,
                        spec_chop_frames(*a, n as int) * (a.fmt.channels as int),
                    ),
                    n as int,
                )
            },
            Err(e) => {
                &&& (e == Error::OutOfRange || e == Error::InvalidParameter)
                &&& (e == Error::OutOfRange <==> (n >= 1 && a.spec_frames() == 0))
                &&& (e == Error::InvalidParameter <==> (n == 0 || (a.spec_frames() >= 1 && (
                n as int) * (spec_chop_frames(*a, n as int) * (a.fmt.channels as int))
                    > MAX_SAMPLES)))
            },
        },
{
    if n == 0 {
        return Err(Error::InvalidParameter);
    }
    let frames = a.frames() as u64;
    let rate = a.fmt.sample_rate as u64;
    proof {
        vstd::arithmetic::div_mod::lemma_div_nonincreasing(
            a.samples@.len() as int,
            a.fmt.channels as int,
        );
        vstd::arithmetic::div_mod::lemma_div_pos_is_pos(
            a.samples@.len() as int,
            a.fmt.channels as int,
        );
    }
    if frames == 0 {
        return Err(Error::OutOfRange);
    }
    let seg_dur = Time::fract(1, n as u64);
    let nf_w = seg_dur.resolve_frames(frames, rate);
    proof {
        assert((frames as int) * 1 == frames as int) by (nonlinear_arith);
    }
    let ef: u64 = if nf_w <= frames as u128 {
        nf_w as u64
    } else {
        frames
    };
    let c = a.fmt.channels;
    proof {
        let fi = frames as int;
        let ci = c as int;
        assert(fi * ci == a.samples@.len()) by {
            vstd::arithmetic::div_mod::lemma_fundamental_div_mod(a.samples@.len() as int, ci);
            assert(ci * fi == fi * ci) by (nonlinear_arith);
        }
        assert((ef as int) * ci <= fi * ci) by (nonlinear_arith)
            requires
                (ef as int) <= fi,
                ci >= 1,
        ;
    }
    let hi: usize = (ef as usize) * c;
    let seg_vec = copy_range(&a.samples, 0, hi);
    proof {
        lemma_subrange_in_range(a.samples@, 0, hi as int);
        vstd::arithmetic::div_mod::lemma_mod_multiples_basic(ef as int, c as int);
    }
    let first = Buffer { samples: seg_vec, fmt: a.fmt };
    match x(&first, n) {
        Ok(out) => Ok(out),
        Err(e) => Err(e),
    }
}

} // verus!
