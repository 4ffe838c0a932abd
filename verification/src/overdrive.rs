use vstd::prelude::*;
use crate::buffer::{in_range, Buffer, SCALE};
use crate::gain::MAX_AMP;
use crate::sample::{abs_i, scale_sample, scaled, soft_clamp, soft_clamp_spec};

verus! {

/// One sample after overdrive: input gain, saturation, output gain, and
/// the final saturation before any write.
pub open spec fn spec_overdrive_at(s: int, amp_in: int, amp_out: int) -> int {
    soft_clamp_spec(
        scaled(soft_clamp_spec(scaled(s, amp_in, SCALE as int)), amp_out, SCALE as int),
    )
}

/// Drives every sample into the saturating curve: an input gain, the soft
/// clamp, then an output gain and the closing soft clamp.
pub fn overdrive(a: &Buffer, amp_in: u64, amp_out: u64) -> (r: Buffer)
    requires
        a.wf(),
        amp_in <= MAX_AMP,
        amp_out <= MAX_AMP,
    ensures
        r.wf(),
        r.fmt == a.fmt,
        r.samples@.len() == a.samples@.len(),
        forall|i: int|
            0 <= i < a.samples@.len() ==> r.samples@[i] == spec_overdrive_at(
                a.samples@[i] as int,
                amp_in as int,
                amp_out as int,
            ),
{
    let n = a.samples.len();
    let mut out: Vec<i64> = Vec::new();
    let mut i: usize = 0;
    while i < n
        invariant
            a.wf(),
            amp_in <= MAX_AMP,
            amp_out <= MAX_AMP,
            n == a.samples@.len(),
            i <= n,
            out@.len() == i,
            forall|j: int|
                0 <= j < i ==> out@[j] == spec_overdrive_at(
                    a.samples@[j] as int,
                    amp_in as int,
                    amp_out as int,
                ),
            forall|j: int| 0 <= j < i ==> in_range(#[trigger] out@[j]),
        decreases n - i,
    {
        let s = a.samples[i];
        proof {
            assert(abs_i(s as int) * (amp_in as int) <= (SCALE as int) * (MAX_AMP as int))
                by (nonlinear_arith)
                requires
                    abs_i(s as int) <= SCALE as int,
                    0 <= amp_in <= MAX_AMP,
            ;
        }
        let t = soft_clamp(scale_sample(s, amp_in, SCALE as u64));
        proof {
            assert(abs_i(t as int) * (amp_out as int) <= (SCALE as int) * (MAX_AMP as int))
                by (nonlinear_arith)
                requires
                    abs_i(t as int) <= SCALE as int,
                    0 <= amp_out <= MAX_AMP,
            ;
        }
        let v = soft_clamp(scale_sample(t, amp_out, SCALE as u64));
        out.push(v);
        i += 1;
    }
    Buffer { samples: out, fmt: a.fmt }
}

} // verus!
