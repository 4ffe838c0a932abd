use vstd::prelude::*;
use crate::buffer::{copy_range, Buffer, MAX_SAMPLES};
use crate::error::Error;

verus! {

/// Concatenates two buffers of identical format.  The result holds every
/// sample of the first followed by every sample of the second, so its
/// duration is the sum of the two durations.
pub fn add(a: &Buffer, b: &Buffer) -> (r: Result<Buffer, Error>)
    requires
        a.wf(),
        b.wf(),
    ensures
        match r {
            Ok(out) => {
                &&& a.fmt == b.fmt
                &&& a.samples@.len() + b.samples@.len() <= MAX_SAMPLES
                &&& out.wf()
                &&& out.fmt == a.fmt
                &&& out.samples@ == a.samples@ + b.samples@
            },
            Err(e) => {
                &&& (e == Error::FormatMismatch || e == Error::InvalidParameter)
                &&& (e == Error::FormatMismatch <==> a.fmt != b.fmt)
                &&& (e == Error::InvalidParameter <==> a.fmt == b.fmt && a.samples@.len()
                    + b.samples@.len() > MAX_SAMPLES)
            },
        },
{
    if a.fmt.channels != b.fmt.channels || a.fmt.sample_rate != b.fmt.sample_rate {
        return Err(Error::FormatMismatch);
    }
    if b.samples.len() > MAX_SAMPLES - a.samples.len() {
        return Err(Error::InvalidParameter);
    }
    let mut out = copy_range(&a.samples, 0, a.samples.len());
    let nb = b.samples.len();
    let mut i: usize = 0;
    while i < nb
        invariant
            nb == b.samples@.len(),
            i <= nb,
            out@ == a.samples@ + b.samples@.subrange(0, i as int),
        decreases nb - i,
    {
        out.push(b.samples[i]);
        proof {
            assert((a.samples@ + b.samples@.subrange(0, i as int)).push(b.samples@[i as int])
                =~= a.samples@ + b.samples@.subrange(0, i + 1));
        }
        i += 1;
    }
    proof {
        assert(a.samples@.subrange(0, a.samples@.len() as int) =~= a.samples@);
        assert(b.samples@.subrange(0, nb as int) =~= b.samples@);
        assert((a.samples@ + b.samples@).len() as int % (a.fmt.channels as int) == 0) by {
            vstd::arithmetic::div_mod::lemma_add_mod_noop(
                a.samples@.len() as int,
                b.samples@.len() as int,
                a.fmt.channels as int,
            );
            vstd::arithmetic::div_mod::lemma_small_mod(0nat, a.fmt.channels as nat);
        }
        assert(crate::buffer::all_in_range(a.samples@ + b.samples@)) by {
            assert(forall|j: int|
                0 <= j < a.samples@.len() ==> (a.samples@ + b.samples@)[j] == a.samples@[j]);
            assert(forall|j: int|
                a.samples@.len() <= j < a.samples@.len() + b.samples@.len() ==> (a.samples@
                    + b.samples@)[j] == b.samples@[j - a.samples@.len()]);
        }
    }
    Ok(Buffer { samples: out, fmt: a.fmt })
}

} // verus!
