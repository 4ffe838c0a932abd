use vstd::prelude::*;
use crate::buffer::{Buffer, in_range};

verus! {

/// Reverses the sample order of a buffer (channels included, exactly as the
/// raw interleaved sequence stands).
pub fn reverse(a: &Buffer) -> (r: Buffer)
    requires
        a.wf(),
    ensures
        r.wf(),
        r.fmt == a.fmt,
        r.samples@.len() == a.samples@.len(),
        forall|i: int|
            0 <= i < a.samples@.len() ==> r.samples@[i] == a.samples@[
                a.samples@.len() - 1 - i],
{
    let n = a.samples.len();
    let mut out: Vec<i64> = Vec::new();
    let mut i: usize = 0;
    while i < n
        invariant
            n == a.samples@.len(),
            i <= n,
            out@.len() == i,
            forall|j: int| 0 <= j < i ==> out@[j] == a.samples@[n - 1 - j],
        decreases n - i,
    {
        out.push(a.samples[n - 1 - i]);
        i += 1;
    }
    proof {
        assert forall|j: int| 0 <= j < n implies in_range(#[trigger] out@[j]) by {
            assert(out@[j] == a.samples@[n - 1 - j]);
        }
    }
    Buffer { samples: out, fmt: a.fmt }
}

} // verus!
