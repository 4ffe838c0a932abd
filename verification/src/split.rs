use vstd::prelude::*;
use crate::buffer::{copy_range, lemma_subrange_in_range, Buffer};
use crate::error::Error;

verus! {

/// The per-segment sample count split uses: whole frames, all channels.
pub open spec fn spec_seg_samples(a: Buffer, n: int) -> int {
    (a.spec_frames() / n) * (a.fmt.channels as int)
}

/// The sample range of segment k out of n: segments are equal, except the
/// last, which absorbs the remainder.
pub open spec fn spec_seg_range(a: Buffer, n: int, k: int) -> (int, int) {
    let l = spec_seg_samples(a, n);
    (k * l, if k == n - 1 {
        a.samples@.len() as int
    } else {
        (k + 1) * l
    })
}

/// Divides a buffer into n contiguous segments of equal frame count, the
/// last absorbing the remainder.  Fails when the per-segment frame count
/// would be zero.
pub fn split(a: &Buffer, n: usize) -> (r: Result<Vec<Buffer>, Error>)
    requires
        a.wf(),
    ensures
        match r {
            Ok(segs) => {
                &&& n >= 1
                &&& (n > 1 ==> a.spec_frames() / (n as int) >= 1)
                &&& segs@.len() == n
                &&& forall|k: int|
                    0 <= k < n ==> (#[trigger] segs@[k]).fmt == a.fmt && segs@[k].wf()
                        && segs@[k].samples@ == a.samples@.subrange(
                        spec_seg_range(*a, n as int, k).0,
                        spec_seg_range(*a, n as int, k).1,
                    )
            },
            Err(e) => {
                &&& e == Error::TooManySegments
                &&& (n == 0 || (n > 1 && a.spec_frames() / (n as int) == 0))
            },
        },
{
    if n == 0 {
        return Err(Error::TooManySegments);
    }
    if n == 1 {
        let seg = a.dup();
        proof {
            assert(a.samples@.subrange(0, a.samples@.len() as int) =~= a.samples@);
            assert(spec_seg_range(*a, 1, 0).0 == 0) by (nonlinear_arith);
        }
        let mut segs: Vec<Buffer> = Vec::new();
        segs.push(seg);
        return Ok(segs);
    }
    let frames = a.frames();
    let seg_frames = frames / n;
    if seg_frames == 0 {
        return Err(Error::TooManySegments);
    }
    let c = a.fmt.channels;
    let len = a.samples.len();
    proof {
        // frames * channels == samples.len(), and n * (frames / n) <= frames.
        vstd::arithmetic::div_mod::lemma_fundamental_div_mod(len as int, c as int);
        vstd::arithmetic::div_mod::lemma_fundamental_div_mod(frames as int, n as int);
        vstd::arithmetic::div_mod::lemma_div_nonincreasing(frames as int, n as int);
        assert((frames as int) * (c as int) == len as int) by (nonlinear_arith)
            requires
                len as int == (c as int) * (frames as int) + len as int % (c as int),
                len as int % (c as int) == 0,
        ;
        assert((seg_frames as int) * (c as int) <= (frames as int) * (c as int))
            by (nonlinear_arith)
            requires
                seg_frames as int <= frames as int,
                c as int >= 1,
        ;
    }
    let seg_samples: usize = seg_frames * c;
    proof {
        let fi = frames as int;
        let ni = n as int;
        let ci = c as int;
        let si = seg_frames as int;
        assert(si * ci <= fi * ci && ni * si <= fi && forall|k: int|
            0 <= k <= ni ==> #[trigger] (k * si) <= fi) by (nonlinear_arith)
            requires
                si >= 0,
                ci >= 1,
                ni >= 1,
                fi == ni * si + fi % ni,
                fi % ni >= 0,
        ;
        assert(fi * ci == len) by (nonlinear_arith)
            requires
                len as int == ci * fi + len as int % ci,
                len as int % ci == 0,
        ;
        assert forall|k: int| 0 <= k <= ni implies #[trigger] (k * (seg_samples as int)) <= len
            && (k * (seg_samples as int)) % ci == 0 by {
            vstd::arithmetic::div_mod::lemma_mod_multiples_basic(k * si, ci);
            assert(k * (si * ci) == (k * si) * ci) by (nonlinear_arith);
            assert((k * si) * ci <= fi * ci) by (nonlinear_arith)
                requires
                    ci >= 1,
                    k * si <= fi,
            ;
        }
    }
    let mut segs: Vec<Buffer> = Vec::new();
    let mut k: usize = 0;
    while k < n
        invariant
            a.wf(),
            1 <= n,
            k <= n,
            c == a.fmt.channels,
            len == a.samples@.len(),
            frames == a.spec_frames(),
            seg_frames == a.spec_frames() / (n as int),
            seg_samples == spec_seg_samples(*a, n as int),
            seg_samples == seg_frames * c,
            forall|j: int| 0 <= j <= n ==> #[trigger] (j * (seg_samples as int)) <= len,
            forall|j: int|
                0 <= j <= n ==> (#[trigger] (j * (seg_samples as int))) % (c as int) == 0,
            segs@.len() == k,
            forall|j: int|
                0 <= j < k ==> (#[trigger] segs@[j]).fmt == a.fmt && segs@[j].wf()
                    && segs@[j].samples@ == a.samples@.subrange(
                    spec_seg_range(*a, n as int, j).0,
                    spec_seg_range(*a, n as int, j).1,
                ),
        decreases n - k,
    {
        let lo: usize = k * seg_samples;
        let hi: usize = if k == n - 1 {
            len
        } else {
            (k + 1) * seg_samples
        };
        proof {
            assert(k * (seg_samples as int) <= (k + 1) * (seg_samples as int))
                by (nonlinear_arith)
                requires
                    seg_samples >= 0,
            ;
            lemma_subrange_in_range(a.samples@, lo as int, hi as int);
            vstd::arithmetic::div_mod::lemma_sub_mod_noop(hi as int, lo as int, c as int);
            vstd::arithmetic::div_mod::lemma_small_mod(0nat, c as nat);
        }
        let seg_vec = copy_range(&a.samples, lo, hi);
        segs.push(Buffer { samples: seg_vec, fmt: a.fmt });
        k += 1;
    }
    Ok(segs)
}

} // verus!
