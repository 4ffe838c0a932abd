use vstd::prelude::*;
use crate::buffer::{Buffer, MAX_SAMPLES};
use crate::error::Error;

verus! {

/// A sequence repeated n times.
pub open spec fn repeat_seq(s: Seq<i64>, n: int) -> Seq<i64>
    decreases n,
{
    if n <= 0 {
        Seq::empty()
    } else {
        repeat_seq(s, n - 1) + s
    }
}

pub proof fn lemma_repeat_len(s: Seq<i64>, n: int)
    requires
        n >= 0,
    ensures
        repeat_seq(s, n).len() == n * s.len(),
    decreases n,
{
    let li = s.len() as int;
    if n > 0 {
        lemma_repeat_len(s, n - 1);
        assert((n - 1) * li + li == n * li) by (nonlinear_arith);
    } else {
        assert(n * li == 0) by (nonlinear_arith)
            requires
                n == 0,
        ;
    }
}

/// Repeats the audio a given number of times.
pub fn x(a: &Buffer, repeat_count: u32) -> (r: Result<Buffer, Error>)
    requires
        a.wf(),
    ensures
        match r {
            Ok(out) => {
                &&& repeat_count >= 1
                &&& repeat_count * a.samples@.len() <= MAX_SAMPLES
                &&& out.wf()
                &&& out.fmt == a.fmt
                &&& out.samples@ == repeat_seq(a.samples@, repeat_count as int)
            },
            Err(e) => {
                &&& e == Error::InvalidParameter
                &&& (repeat_count == 0 || repeat_count * a.samples@.len() > MAX_SAMPLES)
            },
        },
{
    if repeat_count == 0 {
        return Err(Error::InvalidParameter);
    }
    let n = a.samples.len();
    proof {
        if n == 0 {
            assert(repeat_count * a.samples@.len() == 0) by (nonlinear_arith)
                requires
                    a.samples@.len() == 0,
            ;
        }
    }
    if n > 0 && repeat_count as usize > MAX_SAMPLES / n {
        proof {
            let c = repeat_count as int;
            let ni = n as int;
            vstd::arithmetic::div_mod::lemma_fundamental_div_mod(MAX_SAMPLES as int, ni);
            assert(c * ni > MAX_SAMPLES) by (nonlinear_arith)
                requires
                    c > MAX_SAMPLES as int / ni,
                    ni > 0,
                    MAX_SAMPLES as int == ni * (MAX_SAMPLES as int / ni) + MAX_SAMPLES as int
                        % ni,
                    MAX_SAMPLES as int % ni < ni,
            ;
        }
        return Err(Error::InvalidParameter);
    }
    proof {
        let c = repeat_count as int;
        let ni = n as int;
        if n > 0 {
            vstd::arithmetic::div_mod::lemma_fundamental_div_mod(MAX_SAMPLES as int, ni);
            assert(c * ni <= MAX_SAMPLES) by (nonlinear_arith)
                requires
                    c <= MAX_SAMPLES as int / ni,
                    ni > 0,
                    MAX_SAMPLES as int == ni * (MAX_SAMPLES as int / ni) + MAX_SAMPLES as int
                        % ni,
                    MAX_SAMPLES as int % ni >= 0,
            ;
        }
    }
    let mut out: Vec<i64> = Vec::new();
    let mut k: u32 = 0;
    while k < repeat_count
        invariant
            k <= repeat_count,
            n == a.samples@.len(),
            repeat_count * a.samples@.len() <= MAX_SAMPLES,
            out@ == repeat_seq(a.samples@, k as int),
            out@.len() == k * a.samples@.len(),
        decreases repeat_count - k,
    {
        proof {
            lemma_repeat_len(a.samples@, k as int);
            lemma_repeat_len(a.samples@, k + 1);
            assert((k + 1) * a.samples@.len() <= repeat_count * a.samples@.len())
                by (nonlinear_arith)
                requires
                    k + 1 <= repeat_count,
            ;
        }
        let nb = n;
        let mut i: usize = 0;
        while i < nb
            invariant
                nb == n == a.samples@.len(),
                i <= nb,
                out@ == repeat_seq(a.samples@, k as int) + a.samples@.subrange(0, i as int),
                out@.len() == k * a.samples@.len() + i,
                (k + 1) * a.samples@.len() <= MAX_SAMPLES,
            decreases nb - i,
        {
            out.push(a.samples[i]);
            proof {
                assert((repeat_seq(a.samples@, k as int) + a.samples@.subrange(0, i as int))
                    .push(a.samples@[i as int]) =~= repeat_seq(a.samples@, k as int)
                    + a.samples@.subrange(0, i + 1));
                assert((k + 1) * a.samples@.len() == k * a.samples@.len() + a.samples@.len())
                    by (nonlinear_arith);
            }
            i += 1;
        }
        proof {
            assert(a.samples@.subrange(0, nb as int) =~= a.samples@);
            assert((k + 1) * a.samples@.len() == k * a.samples@.len() + a.samples@.len())
                by (nonlinear_arith);
        }
        k += 1;
    }
    proof {
        let total = repeat_count as int * a.samples@.len() as int;
        assert(out@.len() as int % (a.fmt.channels as int) == 0) by {
            lemma_repeat_mod(a.samples@, repeat_count as int, a.fmt.channels as int);
        }
        lemma_repeat_in_range(a.samples@, repeat_count as int);
    }
    Ok(Buffer { samples: out, fmt: a.fmt })
}

proof fn lemma_repeat_mod(s: Seq<i64>, n: int, c: int)
    requires
        n >= 0,
        c >= 1,
        s.len() as int % c == 0,
    ensures
        repeat_seq(s, n).len() as int % c == 0,
    decreases n,
{
    if n > 0 {
        lemma_repeat_mod(s, n - 1, c);
        vstd::arithmetic::div_mod::lemma_add_mod_noop(
            repeat_seq(s, n - 1).len() as int,
            s.len() as int,
            c,
        );
        vstd::arithmetic::div_mod::lemma_small_mod(0nat, c as nat);
        assert(repeat_seq(s, n).len() == repeat_seq(s, n - 1).len() + s.len());
    } else {
        vstd::arithmetic::div_mod::lemma_small_mod(0nat, c as nat);
    }
}

proof fn lemma_repeat_in_range(s: Seq<i64>, n: int)
    requires
        crate::buffer::all_in_range(s),
        n >= 0,
    ensures
        crate::buffer::all_in_range(repeat_seq(s, n)),
    decreases n,
{
    if n > 0 {
        lemma_repeat_in_range(s, n - 1);
        let r = repeat_seq(s, n);
        let p = repeat_seq(s, n - 1);
        assert forall|i: int| 0 <= i < r.len() implies crate::buffer::in_range(#[trigger] r[i]) by {
            if i < p.len() {
                assert(r[i] == p[i]);
            } else {
                assert(r[i] == s[i - p.len()]);
            }
        }
    }
}

} // verus!
