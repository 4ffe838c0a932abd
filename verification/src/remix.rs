use vstd::prelude::*;
use vstd::string::StringSliceAdditionalSpecFns;
use crate::buffer::{all_in_range, extend_samples, in_range, Buffer, MAX_SAMPLES};
use crate::error::Error;
use crate::split::{spec_seg_range, split};

verus! {

/// A remix pattern is valid when it is non-empty and every byte is a digit
/// between 1 and the pattern's own length.
pub open spec fn spec_remix_pat_ok(pat: Seq<u8>) -> bool {
    &&& pat.len() >= 1
    &&& forall|p: int|
        0 <= p < pat.len() ==> 49 <= #[trigger] pat[p] <= 57 && pat[p] - 48 <= pat.len()
}

/// The sample slice of segment j when the buffer is split in n parts.
pub open spec fn spec_seg_view(a: Buffer, n: int, j: int) -> Seq<i64> {
    a.samples@.subrange(spec_seg_range(a, n, j).0, spec_seg_range(a, n, j).1)
}

/// The concatenation of the segments the first k pattern digits select.
pub open spec fn spec_remix_cat(a: Buffer, pat: Seq<u8>, k: int) -> Seq<i64>
    decreases k,
{
    if k <= 0 {
        Seq::empty()
    } else {
        spec_remix_cat(a, pat, k - 1) + spec_seg_view(a, pat.len() as int, pat[k - 1] - 49)
    }
}

proof fn lemma_remix_cat_mono(a: Buffer, pat: Seq<u8>, j: int, k: int)
    requires
        0 <= j <= k,
    ensures
        spec_remix_cat(a, pat, j).len() <= spec_remix_cat(a, pat, k).len(),
    decreases k,
{
    if j < k {
        lemma_remix_cat_mono(a, pat, j, k - 1);
    }
}

/// Rearranges a buffer: splits it into as many segments as the pattern has
/// digits, then concatenates the segments the digits select, one-based.
pub fn remix(a: &Buffer, pattern: &str) -> (r: Result<Buffer, Error>)
    requires
        a.wf(),
    ensures
        ({
            let pat = pattern.spec_bytes();
            match r {
                Ok(out) => {
                    &&& spec_remix_pat_ok(pat)
                    &&& (pat.len() > 1 ==> a.spec_frames() / (pat.len() as int) >= 1)
                    &&& out.wf()
                    &&& out.fmt == a.fmt
                    &&& out.samples@ == spec_remix_cat(*a, pat, pat.len() as int)
                },
                Err(e) => {
                    &&& (e == Error::InvalidParameter || e == Error::TooManySegments)
                    &&& (e == Error::TooManySegments ==> spec_remix_pat_ok(pat) && pat.len()
                        > 1 && a.spec_frames() / (pat.len() as int) == 0)
                    &&& (e == Error::InvalidParameter ==> (!spec_remix_pat_ok(pat)
                        || spec_remix_cat(*a, pat, pat.len() as int).len() > MAX_SAMPLES))
                },
            }
        }),
{
    let pat = pattern.as_bytes();
    let n = pat.len();
    if n == 0 {
        return Err(Error::InvalidParameter);
    }
    let mut p: usize = 0;
    while p < n
        invariant
            n == pat@.len(),
            pat@ == pattern.spec_bytes(),
            p <= n,
            forall|q: int| 0 <= q < p ==> 49 <= #[trigger] pat@[q] <= 57 && pat@[q] - 48 <= n,
        decreases n - p,
    {
        let b = pat[p];
        if b < 49 || b > 57 || (b - 48) as usize > n {
            proof {
                assert(!(49 <= pat@[p as int] <= 57 && pat@[p as int] - 48 <= pat@.len()));
                assert(!spec_remix_pat_ok(pat@));
            }
            return Err(Error::InvalidParameter);
        }
        p += 1;
    }
    let segs = match split(a, n) {
        Ok(v) => v,
        Err(e) => {
            return Err(e);
        },
    };
    let mut out: Vec<i64> = Vec::new();
    let mut k: usize = 0;
    while k < n
        invariant
            a.wf(),
            n == pat@.len(),
            pat@ == pattern.spec_bytes(),
            spec_remix_pat_ok(pat@),
            segs@.len() == n,
            forall|j: int|
                0 <= j < n ==> (#[trigger] segs@[j]).fmt == a.fmt && segs@[j].wf()
                    && segs@[j].samples@ == spec_seg_view(*a, n as int, j),
            k <= n,
            out@ == spec_remix_cat(*a, pat@, k as int),
            out@.len() <= MAX_SAMPLES,
            out@.len() as int % (a.fmt.channels as int) == 0,
            all_in_range(out@),
        decreases n - k,
    {
        let b = pat[k];
        let idx: usize = (b - 49) as usize;
        let seg = &segs[idx];
        if seg.samples.len() > MAX_SAMPLES - out.len() {
            proof {
                lemma_remix_cat_mono(*a, pat@, k + 1, n as int);
                assert(spec_remix_cat(*a, pat@, k + 1) == spec_remix_cat(*a, pat@, k as int)
                    + spec_seg_view(*a, n as int, pat@[k as int] - 49));
                assert(seg.samples@ == spec_seg_view(*a, n as int, pat@[k as int] - 49));
                assert(spec_remix_cat(*a, pat@, k + 1).len() == out@.len()
                    + seg.samples@.len());
                assert(spec_remix_cat(*a, pat@, n as int).len() > MAX_SAMPLES);
            }
            return Err(Error::InvalidParameter);
        }
        let ghost pre = out@;
        extend_samples(&mut out, &seg.samples);
        proof {
            assert(out@ == spec_remix_cat(*a, pat@, k + 1));
            vstd::arithmetic::div_mod::lemma_add_mod_noop(
                pre.len() as int,
                seg.samples@.len() as int,
                a.fmt.channels as int,
            );
            vstd::arithmetic::div_mod::lemma_small_mod(0nat, a.fmt.channels as nat);
            assert(all_in_range(out@)) by {
                assert(forall|j: int|
                    0 <= j < out@.len() ==> out@[j] == (if j < pre.len() {
                        pre[j]
                    } else {
                        seg.samples@[j - pre.len()]
                    }));
            }
        }
        k += 1;
    }
    Ok(Buffer { samples: out, fmt: a.fmt })
}

} // verus!
