use vstd::prelude::*;
use crate::buffer::{in_range, Buffer, SCALE};
use crate::sample::{abs_i, scale_sample, scaled, soft_clamp, soft_clamp_spec};

verus! {

/// The largest fixed-point amplitude multiplier gain and fade accept
/// (the unit amplitude is SCALE).
pub const MAX_AMP: u64 = 0x7fff_ffff_ffff;

/// Fixed-point amplitudes for the decibel levels the toolkit's policies
/// use: round(10^(db/20) * SCALE).
pub const AMP_0DB: u64 = 65536;

/// +0.01 dB, a hair above unity.
pub const AMP_PLUS_001DB: u64 = 65611;

pub const AMP_NEG5DB: u64 = 36854;

pub const AMP_NEG10DB: u64 = 20724;

pub const AMP_NEG30DB: u64 = 2072;

pub const AMP_NEG90DB: u64 = 2;

pub const AMP_NEG100DB: u64 = 1;

/// One sample after a gain of amp / SCALE followed by the soft clamp.
pub open spec fn spec_gain_at(s: int, amp: int) -> int {
    soft_clamp_spec(scaled(s, amp, SCALE as int))
}

/// Multiplies every sample by the fixed-point amplitude factor amp / SCALE,
/// then soft-clamps the result back into nominal range.
pub fn gain(a: &Buffer, amp: u64) -> (r: Buffer)
    requires
        a.wf(),
        amp <= MAX_AMP,
    ensures
        r.wf(),
        r.fmt == a.fmt,
        r.samples@.len() == a.samples@.len(),
        forall|i: int|
            0 <= i < a.samples@.len() ==> r.samples@[i] == spec_gain_at(
                a.samples@[i] as int,
                amp as int,
            ),
{
    let n = a.samples.len();
    let mut out: Vec<i64> = Vec::new();
    let mut i: usize = 0;
    while i < n
        invariant
            a.wf(),
            amp <= MAX_AMP,
            n == a.samples@.len(),
            i <= n,
            out@.len() == i,
            forall|j: int|
                0 <= j < i ==> out@[j] == spec_gain_at(a.samples@[j] as int, amp as int),
            forall|j: int| 0 <= j < i ==> in_range(#[trigger] out@[j]),
        decreases n - i,
    {
        let s = a.samples[i];
        proof {
            assert(abs_i(s as int) * (amp as int) <= (SCALE as int) * (MAX_AMP as int))
                by (nonlinear_arith)
                requires
                    abs_i(s as int) <= SCALE as int,
                    0 <= amp <= MAX_AMP,
            ;
        }
        let scaled_s = scale_sample(s, amp, SCALE as u64);
        let v = soft_clamp(scaled_s);
        out.push(v);
        i += 1;
    }
    Buffer { samples: out, fmt: a.fmt }
}

} // verus!
