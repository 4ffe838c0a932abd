use vstd::prelude::*;
use crate::buffer::{Buffer, MAX_SAMPLES};
use crate::error::Error;

verus! {

/// The concatenation of the sample sequences of the first k buffers.
pub open spec fn concat_upto(bufs: Seq<Buffer>, k: int) -> Seq<i64>
    decreases k,
{
    if k <= 0 {
        Seq::empty()
    } else {
        concat_upto(bufs, k - 1) + bufs[k - 1].samples@
    }
}

pub proof fn lemma_concat_len_mono(bufs: Seq<Buffer>, j: int, k: int)
    requires
        0 <= j <= k,
    ensures
        concat_upto(bufs, j).len() <= concat_upto(bufs, k).len(),
    decreases k,
{
    if j < k {
        lemma_concat_len_mono(bufs, j, k - 1);
    }
}

/// Concatenates every buffer of a list, in order.  Fails on an empty list,
/// on a format mismatch, and when the result would be too large to hold.
pub fn join(bufs: &Vec<Buffer>) -> (r: Result<Buffer, Error>)
    requires
        forall|k: int| 0 <= k < bufs@.len() ==> (#[trigger] bufs@[k]).wf(),
    ensures
        match r {
            Ok(out) => {
                &&& bufs@.len() >= 1
                &&& forall|k: int|
                    0 <= k < bufs@.len() ==> (#[trigger] bufs@[k]).fmt == bufs@[0].fmt
                &&& out.wf()
                &&& out.fmt == bufs@[0].fmt
                &&& out.samples@ == concat_upto(bufs@, bufs@.len() as int)
            },
            Err(e) => {
                &&& (e == Error::EmptyInput || e == Error::FormatMismatch
                    || e == Error::InvalidParameter)
                &&& (e == Error::EmptyInput <==> bufs@.len() == 0)
                &&& (e == Error::FormatMismatch ==> exists|k: int|
                    0 <= k < bufs@.len() && (#[trigger] bufs@[k]).fmt != bufs@[0].fmt)
                &&& (e == Error::InvalidParameter ==> concat_upto(
                    bufs@,
                    bufs@.len() as int,
                ).len() > MAX_SAMPLES)
            },
        },
{
    let n = bufs.len();
    if n == 0 {
        return Err(Error::EmptyInput);
    }
    let fmt = bufs[0].fmt;
    let mut out: Vec<i64> = Vec::new();
    let mut k: usize = 0;
    while k < n
        invariant
            n == bufs@.len(),
            1 <= n,
            k <= n,
            fmt == bufs@[0].fmt,
            forall|j: int| 0 <= j < n ==> (#[trigger] bufs@[j]).wf(),
            forall|j: int| 0 <= j < k ==> (#[trigger] bufs@[j]).fmt == fmt,
            out@ == concat_upto(bufs@, k as int),
            out@.len() <= MAX_SAMPLES,
            out@.len() as int % (fmt.channels as int) == 0,
            crate::buffer::all_in_range(out@),
            fmt.wf(),
        decreases n - k,
    {
        let b = &bufs[k];
        if b.fmt.channels != fmt.channels || b.fmt.sample_rate != fmt.sample_rate {
            proof {
                lemma_concat_len_mono(bufs@, k as int, n as int);
            }
            return Err(Error::FormatMismatch);
        }
        if b.samples.len() > MAX_SAMPLES - out.len() {
            proof {
                lemma_concat_len_mono(bufs@, k + 1, n as int);
            }
            return Err(Error::InvalidParameter);
        }
        let nb = b.samples.len();
        let mut i: usize = 0;
        while i < nb
            invariant
                n == bufs@.len(),
                k < n,
                nb == b.samples@.len(),
                b.samples@ == bufs@[k as int].samples@,
                i <= nb,
                concat_upto(bufs@, k as int).len() + nb <= MAX_SAMPLES,
                out@ == concat_upto(bufs@, k as int) + b.samples@.subrange(0, i as int),
            decreases nb - i,
        {
            out.push(b.samples[i]);
            proof {
                assert((concat_upto(bufs@, k as int) + b.samples@.subrange(0, i as int)).push(
                    b.samples@[i as int],
                ) =~= concat_upto(bufs@, k as int) + b.samples@.subrange(0, i + 1));
            }
            i += 1;
        }
        proof {
            assert(b.samples@.subrange(0, nb as int) =~= b.samples@);
            assert(out@ =~= concat_upto(bufs@, k + 1));
            vstd::arithmetic::div_mod::lemma_add_mod_noop(
                concat_upto(bufs@, k as int).len() as int,
                b.samples@.len() as int,
                fmt.channels as int,
            );
            vstd::arithmetic::div_mod::lemma_small_mod(0nat, fmt.channels as nat);
            let prev = concat_upto(bufs@, k as int);
            assert forall|j: int| 0 <= j < out@.len() implies crate::buffer::in_range(
                #[trigger] out@[j],
            ) by {
                if j < prev.len() {
                    assert(out@[j] == prev[j]);
                } else {
                    assert(out@[j] == b.samples@[j - prev.len()]);
                }
            }
        }
        k += 1;
    }
    Ok(Buffer { samples: out, fmt })
}

} // verus!
