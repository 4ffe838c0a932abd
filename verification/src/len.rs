use vstd::prelude::*;
use crate::buffer::{Buffer, MAX_RATE, MAX_SAMPLES};
use crate::rat::Rat;

verus! {

/// The duration of a buffer in seconds: frames / sample_rate.
pub fn len(buf: &Buffer) -> (r: Rat)
    requires
        buf.wf(),
    ensures
        r == buf.spec_duration(),
        r.wf(),
        r.num <= MAX_SAMPLES,
        1 <= r.den <= MAX_RATE,
{
    let frames = buf.frames();
    proof {
        vstd::arithmetic::div_mod::lemma_div_nonincreasing(
            buf.samples@.len() as int,
            buf.fmt.channels as int,
        );
        vstd::arithmetic::div_mod::lemma_div_pos_is_pos(
            buf.samples@.len() as int,
            buf.fmt.channels as int,
        );
    }
    Rat { num: frames as u64, den: buf.fmt.sample_rate as u64 }
}

} // verus!
