use vstd::prelude::*;
use crate::error::Error;
use crate::rat::Rat;

verus! {

/// One full amplitude unit.  A sample holds `value * SCALE`, so the nominal
/// range [-1.0, 1.0] is the integer range [-SCALE, SCALE].
pub const SCALE: i64 = 65536;

/// The largest sample count a buffer may hold.
pub const MAX_SAMPLES: usize = 0x4000_0000;

/// The largest sample rate a format may carry.
pub const MAX_RATE: usize = 0x100000;

/// The largest channel count a format may carry.
pub const MAX_CHANNELS: usize = 0x10000;

/// Channel count and sample rate, paired with every buffer.
#[derive(Clone, Copy, Debug, PartialEq, Eq, Structural)]
pub struct Format {
    pub channels: usize,
    pub sample_rate: usize,
}

impl Format {
    pub open spec fn wf(&self) -> bool {
        &&& 1 <= self.channels <= MAX_CHANNELS
        &&& 1 <= self.sample_rate <= MAX_RATE
    }

    pub fn new(channels: usize, sample_rate: usize) -> (r: Result<Format, Error>)
        ensures
            match r {
                Ok(f) => f.wf() && f.channels == channels && f.sample_rate == sample_rate,
                Err(e) => e == Error::InvalidParameter && !(Format {
                    channels,
                    sample_rate,
                }).wf(),
            },
    {
        if 1 <= channels && channels <= MAX_CHANNELS && 1 <= sample_rate && sample_rate
            <= MAX_RATE {
            Ok(Format { channels, sample_rate })
        } else {
            Err(Error::InvalidParameter)
        }
    }
}

/// A sample is in nominal range when its magnitude is at most SCALE.
pub open spec fn in_range(s: i64) -> bool {
    -SCALE <= s <= SCALE
}

pub open spec fn all_in_range(s: Seq<i64>) -> bool {
    forall|i: int| 0 <= i < s.len() ==> in_range(#[trigger] s[i])
}

/// The largest sample magnitude in a sequence (0 for an empty one).
pub open spec fn peak_of(s: Seq<i64>) -> int
    decreases s.len(),
{
    if s.len() == 0 {
        0
    } else {
        let rest = peak_of(s.drop_last());
        let last = vstd::math::abs(s.last() as int) as int;
        if last > rest {
            last
        } else {
            rest
        }
    }
}

/// An interleaved sequence of fixed-point samples plus its format.
/// Buffers are immutable values: every operator consumes its inputs and
/// produces a new buffer.
#[derive(Debug)]
pub struct Buffer {
    pub samples: Vec<i64>,
    pub fmt: Format,
}

impl Buffer {
    /// Validity: the format is sound, the length is a whole number of frames,
    /// bounded, and every sample is in nominal range.
    pub open spec fn wf(&self) -> bool {
        &&& self.fmt.wf()
        &&& (self.samples@.len() as int) % (self.fmt.channels as int) == 0
        &&& self.samples@.len() <= MAX_SAMPLES
        &&& all_in_range(self.samples@)
    }

    /// The number of frames (sample groups spanning all channels).
    pub open spec fn spec_frames(&self) -> int {
        self.samples@.len() as int / (self.fmt.channels as int)
    }

    /// The duration of this buffer, in seconds: frames / sample_rate.
    pub open spec fn spec_duration(&self) -> Rat {
        Rat { num: (self.spec_frames() as u64), den: (self.fmt.sample_rate as u64) }
    }

    /// Builds a buffer after checking every validity condition: it succeeds
    /// exactly when the format is sound, the length is a bounded whole
    /// number of frames, and every sample is in nominal range.
    pub fn new(samples: Vec<i64>, channels: usize, sample_rate: usize) -> (r: Result<
        Buffer,
        Error,
    >)
        ensures
            match r {
                Ok(b) => {
                    &&& b.wf()
                    &&& b.samples@ == samples@
                    &&& b.fmt.channels == channels
                    &&& b.fmt.sample_rate == sample_rate
                },
                Err(e) => {
                    &&& e == Error::InvalidParameter
                    &&& !((Format { channels, sample_rate }).wf() && (samples@.len() as int)
                        % (channels as int) == 0 && samples@.len() <= MAX_SAMPLES
                        && all_in_range(samples@))
                },
            },
    {
        let fmt = match Format::new(channels, sample_rate) {
            Ok(f) => f,
            Err(e) => {
                return Err(e);
            },
        };
        if samples.len() % channels != 0 || samples.len() > MAX_SAMPLES {
            return Err(Error::InvalidParameter);
        }
        let n = samples.len();
        let mut i: usize = 0;
        while i < n
            invariant
                n == samples@.len(),
                forall|j: int| 0 <= j < i ==> in_range(#[trigger] samples@[j]),
            decreases n - i,
        {
            let s = samples[i];
            if s < -SCALE || s > SCALE {
                proof {
                    assert(!in_range(samples@[i as int]));
                }
                return Err(Error::InvalidParameter);
            }
            i += 1;
        }
        Ok(Buffer { samples, fmt })
    }

    /// The number of frames this buffer holds.
    pub fn frames(&self) -> (r: usize)
        requires
            self.wf(),
        ensures
            r == self.spec_frames(),
    {
        self.samples.len() / self.fmt.channels
    }

    /// A fresh buffer with the same samples and format.
    pub fn dup(&self) -> (r: Buffer)
        ensures
            r.samples@ == self.samples@,
            r.fmt == self.fmt,
    {
        let samples = clone_samples(&self.samples);
        Buffer { samples, fmt: self.fmt }
    }
}

/// Every sample of a slice of an in-range sequence is in range.
pub proof fn lemma_subrange_in_range(s: Seq<i64>, lo: int, hi: int)
    requires
        all_in_range(s),
        0 <= lo <= hi <= s.len(),
    ensures
        all_in_range(s.subrange(lo, hi)),
{
    assert forall|i: int| 0 <= i < hi - lo implies in_range(#[trigger] s.subrange(lo, hi)[i]) by {
        assert(s.subrange(lo, hi)[i] == s[lo + i]);
    }
}

/// Copies the half-open range [lo, hi) of a sample vector.
pub fn copy_range(v: &Vec<i64>, lo: usize, hi: usize) -> (r: Vec<i64>)
    requires
        lo <= hi <= v@.len(),
    ensures
        r@ == v@.subrange(lo as int, hi as int),
{
    let mut out: Vec<i64> = Vec::new();
    let mut i: usize = lo;
    while i < hi
        invariant
            lo <= i <= hi <= v@.len(),
            out@ == v@.subrange(lo as int, i as int),
        decreases hi - i,
    {
        out.push(v[i]);
        proof {
            assert(v@.subrange(lo as int, i as int).push(v@[i as int]) =~= v@.subrange(
                lo as int,
                i + 1,
            ));
        }
        i += 1;
    }
    out
}

/// Appends every sample of src to dst.
pub(crate) fn extend_samples(dst: &mut Vec<i64>, src: &Vec<i64>)
    ensures
        final(dst)@ == old(dst)@ + src@,
{
    let n = src.len();
    let mut i: usize = 0;
    while i < n
        invariant
            n == src@.len(),
            i <= n,
            dst@ == old(dst)@ + src@.subrange(0, i as int),
        decreases n - i,
    {
        dst.push(src[i]);
        proof {
            assert((old(dst)@ + src@.subrange(0, i as int)).push(src@[i as int]) =~= old(
                dst,
            )@ + src@.subrange(0, i + 1));
        }
        i += 1;
    }
    proof {
        assert(old(dst)@ + src@.subrange(0, n as int) =~= old(dst)@ + src@);
    }
}

/// Copies a sample vector element by element.
pub fn clone_samples(v: &Vec<i64>) -> (r: Vec<i64>)
    ensures
        r@ == v@,
{
    let mut out: Vec<i64> = Vec::new();
    let n = v.len();
    let mut i: usize = 0;
    while i < n
        invariant
            n == v@.len(),
            i <= n,
            out@ == v@.subrange(0, i as int),
        decreases n - i,
    {
        out.push(v[i]);
        i += 1;
    }
    proof {
        assert(out@ =~= v@);
    }
    out
}

} // verus!
