use vstd::prelude::*;
use crate::buffer::{all_in_range, in_range, peak_of, Buffer, SCALE};
use crate::error::Error;
use crate::maxgain::{peak, scale_to_peak};
use crate::sample::{avg2, avg2_spec, scaled};

verus! {

/// The sample at index i, reading 0 beyond the end (zero padding).
pub open spec fn spec_pad_at(s: Seq<i64>, i: int) -> int {
    if 0 <= i < s.len() {
        s[i] as int
    } else {
        0
    }
}

/// The element-wise average of two sample sequences, the shorter padded
/// with silence to the longer one's length.
pub open spec fn spec_mixed(a: Seq<i64>, b: Seq<i64>) -> Seq<i64> {
    Seq::new(
        if a.len() >= b.len() {
            a.len()
        } else {
            b.len()
        },
        |i: int| avg2_spec(spec_pad_at(a, i), spec_pad_at(b, i)) as i64,
    )
}

/// Mixes two buffers of identical format by element-wise averaging, the
/// shorter padded with silence.  With `normalize`, the result is then
/// scaled so its peak is exactly one unit (skipped when it is silent).
pub fn mix(a: &Buffer, b: &Buffer, normalize: bool) -> (r: Result<Buffer, Error>)
    requires
        a.wf(),
        b.wf(),
    ensures
        match r {
            Ok(out) => {
                &&& a.fmt == b.fmt
                &&& out.wf()
                &&& out.fmt == a.fmt
                &&& out.samples@.len() == spec_mixed(a.samples@, b.samples@).len()
                &&& (!normalize ==> out.samples@ == spec_mixed(a.samples@, b.samples@))
                &&& (normalize ==> {
                    let m = spec_mixed(a.samples@, b.samples@);
                    &&& (peak_of(m) == 0 ==> out.samples@ == m)
                    &&& (peak_of(m) > 0 ==> {
                        &&& forall|i: int|
                            0 <= i < m.len() ==> out.samples@[i] == scaled(
                                m[i] as int,
                                SCALE as int,
                                peak_of(m),
                            )
                        &&& peak_of(out.samples@) == SCALE
                    })
                })
            },
            Err(e) => {
                &&& e == Error::FormatMismatch
                &&& a.fmt != b.fmt
            },
        },
{
    if a.fmt.channels != b.fmt.channels || a.fmt.sample_rate != b.fmt.sample_rate {
        return Err(Error::FormatMismatch);
    }
    let na = a.samples.len();
    let nb = b.samples.len();
    let n = if na >= nb {
        na
    } else {
        nb
    };
    let ghost m = spec_mixed(a.samples@, b.samples@);
    let mut mixed: Vec<i64> = Vec::new();
    let mut i: usize = 0;
    while i < n
        invariant
            a.wf(),
            b.wf(),
            na == a.samples@.len(),
            nb == b.samples@.len(),
            n == m.len(),
            m == spec_mixed(a.samples@, b.samples@),
            i <= n,
            mixed@.len() == i,
            forall|j: int| 0 <= j < i ==> mixed@[j] == m[j],
            forall|j: int| 0 <= j < i ==> in_range(#[trigger] mixed@[j]),
        decreases n - i,
    {
        let sa: i64 = if i < na {
            a.samples[i]
        } else {
            0
        };
        let sb: i64 = if i < nb {
            b.samples[i]
        } else {
            0
        };
        let v = avg2(sa, sb);
        proof {
            assert(sa as int == spec_pad_at(a.samples@, i as int));
            assert(sb as int == spec_pad_at(b.samples@, i as int));
            assert(m[i as int] == avg2_spec(sa as int, sb as int) as i64);
        }
        mixed.push(v);
        i += 1;
    }
    proof {
        assert(mixed@ =~= m);
        assert(mixed@.len() as int % (a.fmt.channels as int) == 0);
    }
    if normalize {
        let pk = peak(&mixed);
        if pk > 0 {
            let out = scale_to_peak(&mixed, pk);
            return Ok(Buffer { samples: out, fmt: a.fmt });
        }
        proof {
            crate::maxgain::lemma_peak_zero(m);
        }
        return Ok(Buffer { samples: mixed, fmt: a.fmt });
    }
    Ok(Buffer { samples: mixed, fmt: a.fmt })
}

} // verus!
