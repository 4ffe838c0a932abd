use vstd::prelude::*;
use crate::buffer::{all_in_range, in_range, peak_of, Buffer, SCALE};
use crate::sample::{abs_i, scale_sample, scaled};

verus! {

/// The peak bounds every element's magnitude.
pub proof fn lemma_peak_ge(s: Seq<i64>, i: int)
    requires
        0 <= i < s.len(),
    ensures
        peak_of(s) >= abs_i(s[i] as int),
        peak_of(s) >= 0,
    decreases s.len(),
{
    if i + 1 == s.len() {
    } else {
        lemma_peak_ge(s.drop_last(), i);
        assert(s.drop_last()[i] == s[i]);
    }
}

pub proof fn lemma_peak_zero(s: Seq<i64>)
    ensures
        peak_of(s) >= 0,
    decreases s.len(),
{
    if s.len() > 0 {
        lemma_peak_zero(s.drop_last());
    }
}

/// If every element's magnitude is at most b, so is the peak.
pub proof fn lemma_peak_le(s: Seq<i64>, b: int)
    requires
        b >= 0,
        forall|i: int| 0 <= i < s.len() ==> abs_i(s[i] as int) <= b,
    ensures
        peak_of(s) <= b,
    decreases s.len(),
{
    if s.len() > 0 {
        lemma_peak_le(s.drop_last(), b);
        assert(abs_i(s.last() as int) <= b);
    }
}

/// A non-empty sequence attains its peak at some index.
pub proof fn lemma_peak_attained(s: Seq<i64>)
    requires
        s.len() > 0,
    ensures
        exists|i: int| 0 <= i < s.len() && abs_i(s[i] as int) == peak_of(s),
    decreases s.len(),
{
    if s.len() == 1 {
        assert(s.drop_last().len() == 0);
        assert(peak_of(s.drop_last()) == 0);
        assert(abs_i(s[0] as int) == peak_of(s));
    } else {
        let rest = s.drop_last();
        lemma_peak_attained(rest);
        if abs_i(s.last() as int) > peak_of(rest) {
            assert(abs_i(s[s.len() - 1] as int) == peak_of(s));
        } else {
            let i = choose|i: int| 0 <= i < rest.len() && abs_i(rest[i] as int) == peak_of(
                rest,
            );
            assert(s[i] == rest[i]);
            assert(abs_i(s[i] as int) == peak_of(s));
        }
    }
}

/// The largest sample magnitude of a vector.
pub fn peak(v: &Vec<i64>) -> (r: u64)
    requires
        all_in_range(v@),
    ensures
        r == peak_of(v@),
        r <= SCALE,
{
    let n = v.len();
    let mut pk: u64 = 0;
    let mut i: usize = 0;
    proof {
        assert(v@.subrange(0, 0) =~= Seq::<i64>::empty());
    }
    while i < n
        invariant
            n == v@.len(),
            i <= n,
            all_in_range(v@),
            pk == peak_of(v@.subrange(0, i as int)),
            pk <= SCALE,
        decreases n - i,
    {
        let s = v[i];
        let m: u64 = if s < 0 {
            (-s) as u64
        } else {
            s as u64
        };
        proof {
            let pre = v@.subrange(0, i + 1);
            assert(pre.drop_last() =~= v@.subrange(0, i as int));
            assert(pre.last() == v@[i as int]);
        }
        if m > pk {
            pk = m;
        }
        i += 1;
    }
    proof {
        assert(v@.subrange(0, n as int) =~= v@);
    }
    pk
}

/// Scales every sample by SCALE / pk, the peak-normalizing gain.
pub(crate) fn scale_to_peak(v: &Vec<i64>, pk: u64) -> (r: Vec<i64>)
    requires
        all_in_range(v@),
        1 <= pk <= SCALE,
        peak_of(v@) == pk,
    ensures
        r@.len() == v@.len(),
        forall|i: int|
            0 <= i < v@.len() ==> r@[i] == scaled(v@[i] as int, SCALE as int, pk as int),
        all_in_range(r@),
        peak_of(r@) == SCALE,
{
    let n = v.len();
    let mut out: Vec<i64> = Vec::new();
    let mut i: usize = 0;
    while i < n
        invariant
            n == v@.len(),
            i <= n,
            all_in_range(v@),
            1 <= pk <= SCALE,
            peak_of(v@) == pk,
            out@.len() == i,
            forall|j: int|
                0 <= j < i ==> out@[j] == scaled(v@[j] as int, SCALE as int, pk as int),
            forall|j: int|
                0 <= j < i ==> abs_i(#[trigger] out@[j] as int) == (abs_i(v@[j] as int) * (
                SCALE as int)) / (pk as int),
            forall|j: int| 0 <= j < i ==> in_range(#[trigger] out@[j]),
        decreases n - i,
    {
        let s = v[i];
        proof {
            lemma_peak_ge(v@, i as int);
            assert(abs_i(s as int) * (SCALE as int) <= (pk as int) * (SCALE as int)
                && (pk as int) * (SCALE as int) <= (SCALE as int) * (SCALE as int))
                by (nonlinear_arith)
                requires
                    abs_i(s as int) <= pk as int,
                    0 <= pk <= SCALE as int,
            ;
            crate::sample::lemma_trunc_div_bound(
                (s as int) * (SCALE as int),
                pk as int,
                SCALE as int,
            );
            assert(abs_i((s as int) * (SCALE as int)) == abs_i(s as int) * (SCALE as int))
                by (nonlinear_arith);
            assert((SCALE as int) * (pk as int) == (pk as int) * (SCALE as int))
                by (nonlinear_arith);
        }
        let w = scale_sample(s, SCALE as u64, pk);
        out.push(w);
        i += 1;
    }
    proof {
        // the peak is attained at some index and maps exactly to SCALE
        lemma_peak_attained(v@);
        let wi = choose|j: int| 0 <= j < v@.len() && abs_i(v@[j] as int) == peak_of(v@);
        vstd::arithmetic::div_mod::lemma_div_multiples_vanish(SCALE as int, pk as int);
        assert(abs_i(out@[wi] as int) == SCALE as int) by {
            assert(abs_i(out@[wi] as int) == (abs_i(v@[wi] as int) * (SCALE as int)) / (
            pk as int));
            assert(abs_i(v@[wi] as int) * (SCALE as int) == (pk as int) * (SCALE as int));
            assert((pk as int) * (SCALE as int) == (SCALE as int) * (pk as int))
                by (nonlinear_arith);
            assert(((pk as int) * (SCALE as int)) / (pk as int) == SCALE as int);
        }
        assert(forall|j: int| 0 <= j < out@.len() ==> abs_i(out@[j] as int) <= SCALE as int);
        lemma_peak_le(out@, SCALE as int);
        lemma_peak_ge(out@, wi);
    }
    out
}

/// Peak normalization: a silent buffer and one already at (or beyond) full
/// scale are returned unchanged; otherwise every sample is scaled by one
/// over the peak, making the new peak exactly one unit.
pub fn maxgain(a: &Buffer) -> (r: Buffer)
    requires
        a.wf(),
    ensures
        r.wf(),
        r.fmt == a.fmt,
        r.samples@.len() == a.samples@.len(),
        peak_of(a.samples@) == 0 || peak_of(a.samples@) >= SCALE ==> r.samples@ == a.samples@,
        0 < peak_of(a.samples@) < SCALE ==> {
            &&& forall|i: int|
                0 <= i < a.samples@.len() ==> r.samples@[i] == scaled(
                    a.samples@[i] as int,
                    SCALE as int,
                    peak_of(a.samples@),
                )
            &&& peak_of(r.samples@) == SCALE
        },
        peak_of(r.samples@) <= SCALE,
{
    let pk = peak(&a.samples);
    proof {
        lemma_peak_zero(a.samples@);
    }
    if pk == 0 || pk >= SCALE as u64 {
        let r = a.dup();
        proof {
            lemma_peak_le(r.samples@, SCALE as int);
        }
        r
    } else {
        let out = scale_to_peak(&a.samples, pk);
        proof {
            lemma_peak_le(out@, SCALE as int);
        }
        Buffer { samples: out, fmt: a.fmt }
    }
}

} // verus!
