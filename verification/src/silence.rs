use vstd::prelude::*;
use crate::buffer::{Buffer, Format, MAX_SAMPLES};
use crate::error::Error;
use crate::rat::Rat;

verus! {

/// The fixed format silence is produced in: stereo at 44100 frames per second.
pub const SILENCE_CHANNELS: usize = 2;

pub const SILENCE_RATE: usize = 44100;

/// The frame count a silence of the given duration holds: the duration in
/// seconds times the rate, truncated.
pub open spec fn spec_silence_frames(duration: Rat) -> int {
    ((duration.num as int) * (SILENCE_RATE as int)) / (duration.den as int)
}

/// A buffer of zero samples of the given duration, stereo at 44100.
pub fn silence(duration: &Rat) -> (r: Result<Buffer, Error>)
    requires
        duration.wf(),
    ensures
        match r {
            Ok(out) => {
                &&& out.wf()
                &&& out.fmt == (Format { channels: SILENCE_CHANNELS, sample_rate: SILENCE_RATE })
                &&& out.spec_frames() == spec_silence_frames(*duration)
                &&& out.samples@.len() == SILENCE_CHANNELS * spec_silence_frames(*duration)
                &&& forall|i: int| 0 <= i < out.samples@.len() ==> out.samples@[i] == 0
            },
            Err(e) => {
                &&& e == Error::InvalidParameter
                &&& SILENCE_CHANNELS * spec_silence_frames(*duration) > MAX_SAMPLES
            },
        },
{
    let n: u128 = (duration.num as u128) * (SILENCE_RATE as u128);
    let frames: u128 = n / (duration.den as u128);
    proof {
        vstd::arithmetic::div_mod::lemma_div_pos_is_pos(n as int, duration.den as int);
    }
    if frames > (MAX_SAMPLES / SILENCE_CHANNELS) as u128 {
        proof {
            assert(SILENCE_CHANNELS * spec_silence_frames(*duration) > MAX_SAMPLES)
                by (nonlinear_arith)
                requires
                    spec_silence_frames(*duration) > MAX_SAMPLES as int / SILENCE_CHANNELS as int,
                    spec_silence_frames(*duration) == frames as int,
            ;
        }
        return Err(Error::InvalidParameter);
    }
    let fcount = frames as usize;
    let total: usize = fcount * SILENCE_CHANNELS;
    let mut out: Vec<i64> = Vec::new();
    let mut i: usize = 0;
    while i < total
        invariant
            i <= total,
            out@.len() == i,
            forall|j: int| 0 <= j < i ==> out@[j] == 0i64,
        decreases total - i,
    {
        out.push(0i64);
        i += 1;
    }
    proof {
        assert(total == SILENCE_CHANNELS * spec_silence_frames(*duration));
        assert(total as int % (SILENCE_CHANNELS as int) == 0) by (nonlinear_arith)
            requires
                total as int == (frames as int) * (SILENCE_CHANNELS as int)
                    || total as int == (SILENCE_CHANNELS as int) * (frames as int),
        ;
        assert(out@.len() as int / (SILENCE_CHANNELS as int) == frames as int)
            by (nonlinear_arith)
            requires
                out@.len() as int == (frames as int) * (SILENCE_CHANNELS as int)
                    || out@.len() as int == (SILENCE_CHANNELS as int) * (frames as int),
        ;
    }
    Ok(Buffer { samples: out, fmt: Format { channels: SILENCE_CHANNELS, sample_rate: SILENCE_RATE } })
}

} // verus!
