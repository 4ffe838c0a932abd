use vstd::prelude::*;
use crate::buffer::{in_range, SCALE};
use vstd::arithmetic::div_mod::{
    lemma_div_is_ordered,
    lemma_div_multiples_vanish,
    lemma_div_nonincreasing,
    lemma_div_pos_is_pos,
};

verus! {

/// The magnitude of an integer.
pub open spec fn abs_i(x: int) -> int {
    if x >= 0 {
        x
    } else {
        -x
    }
}

/// Division truncating toward zero, the way the machine divides signed
/// integers (the divisor is positive).
pub open spec fn trunc_div(n: int, d: int) -> int {
    if n >= 0 {
        n / d
    } else {
        -((-n) / d)
    }
}

/// A sample scaled by the fixed-point factor m / d.
pub open spec fn scaled(s: int, m: int, d: int) -> int {
    trunc_div(s * m, d)
}

/// The truncating quotient never exceeds the bound that the numerator gives.
pub proof fn lemma_trunc_div_bound(n: int, d: int, b: int)
    requires
        d >= 1,
        b >= 0,
        abs_i(n) <= b * d,
    ensures
        abs_i(trunc_div(n, d)) <= b,
        n >= 0 ==> trunc_div(n, d) >= 0,
        n < 0 ==> trunc_div(n, d) <= 0,
{
    assert(b * d == d * b) by (nonlinear_arith);
    if n >= 0 {
        lemma_div_pos_is_pos(n, d);
        lemma_div_is_ordered(n, b * d, d);
        lemma_div_multiples_vanish(b, d);
        assert(n / d <= (d * b) / d);
    } else {
        lemma_div_pos_is_pos(-n, d);
        lemma_div_is_ordered(-n, b * d, d);
        lemma_div_multiples_vanish(b, d);
        assert((-n) / d <= (d * b) / d);
    }
}

/// Scales a sample by m / d, truncating toward zero.
pub fn scale_sample(s: i64, m: u64, d: u64) -> (r: i64)
    requires
        d >= 1,
        s > i64::MIN,
        abs_i(s as int) * m <= 0x7fff_ffff_ffff_ffff,
    ensures
        r == scaled(s as int, m as int, d as int),
        abs_i(r as int) == (abs_i(s as int) * (m as int)) / (d as int),
{
    let neg = s < 0;
    let mag: u64 = if neg {
        (-s) as u64
    } else {
        s as u64
    };
    let q: u64 = (mag * m) / d;
    proof {
        let si = s as int;
        let mi = m as int;
        let di = d as int;
        lemma_div_pos_is_pos(mag * m, di);
        lemma_div_nonincreasing(mag * m, di);
        if neg {
            assert((-si) * mi == -(si * mi)) by (nonlinear_arith);
        }
    }
    if neg {
        -(q as i64)
    } else {
        q as i64
    }
}

/// The truncating average of two samples, (a + b) / 2.
pub open spec fn avg2_spec(a: int, b: int) -> int {
    trunc_div(a + b, 2)
}

pub fn avg2(a: i64, b: i64) -> (r: i64)
    requires
        in_range(a),
        in_range(b),
    ensures
        r == avg2_spec(a as int, b as int),
        in_range(r),
{
    let t: i64 = a + b;
    proof {
        lemma_trunc_div_bound((a + b) as int, 2, SCALE as int);
    }
    let neg = t < 0;
    let mag: u64 = if neg {
        (-t) as u64
    } else {
        t as u64
    };
    let q = mag / 2;
    if neg {
        -(q as i64)
    } else {
        q as i64
    }
}

/// Linear interpolation between two samples: s0 weighted by (den - rem)
/// and s1 by rem, truncated toward zero.
pub open spec fn interp_spec(s0: int, s1: int, rem: int, den: int) -> int {
    trunc_div(s0 * (den - rem) + s1 * rem, den)
}

/// A convex combination of two in-range samples stays within one unit
/// times the denominator.
proof fn lemma_interp_in_range(s0: int, s1: int, rem: int, den: int)
    requires
        den >= 1,
        0 <= rem <= den,
        -SCALE <= s0 <= SCALE,
        -SCALE <= s1 <= SCALE,
    ensures
        abs_i(s0 * (den - rem) + s1 * rem) <= (SCALE as int) * den,
{
    let sc = SCALE as int;
    assert(abs_i(s0 * (den - rem) + s1 * rem) <= sc * den) by (nonlinear_arith)
        requires
            0 <= rem <= den,
            -sc <= s0 <= sc,
            -sc <= s1 <= sc,
            sc >= 1,
    ;
}

pub fn interp(s0: i64, s1: i64, rem: u128, den: u128) -> (r: i64)
    requires
        1 <= den <= 0x1_0000_0000_0000_0000_0000_0000,
        rem <= den,
        in_range(s0),
        in_range(s1),
    ensures
        r == interp_spec(s0 as int, s1 as int, rem as int, den as int),
        in_range(r),
{
    proof {
        let sc = SCALE as int;
        lemma_interp_in_range(s0 as int, s1 as int, rem as int, den as int);
        lemma_trunc_div_bound(
            s0 as int * (den - rem) + s1 as int * rem,
            den as int,
            SCALE as int,
        );
        assert(abs_i(s0 as int * ((den - rem) as int)) <= sc * ((den - rem) as int))
            by (nonlinear_arith)
            requires
                -sc <= s0 <= sc,
                rem <= den,
                sc >= 1,
        ;
        assert(abs_i(s1 as int * (rem as int)) <= sc * (rem as int)) by (nonlinear_arith)
            requires
                -sc <= s1 <= sc,
                0 <= rem,
                sc >= 1,
        ;
        assert(sc * ((den - rem) as int) <= sc * (den as int) && sc * (rem as int) <= sc * (
        den as int)) by (nonlinear_arith)
            requires
                0 <= rem <= den,
                sc >= 1,
        ;
    }
    let p0: i128 = (s0 as i128) * ((den - rem) as i128);
    let p1: i128 = (s1 as i128) * (rem as i128);
    let n: i128 = p0 + p1;
    let neg = n < 0;
    let mag: u128 = if neg {
        (-n) as u128
    } else {
        n as u128
    };
    let q: u128 = mag / den;
    if neg {
        -(q as i64)
    } else {
        q as i64
    }
}

/// The saturating map applied before any output: smooth, odd, monotone,
/// and bounded by one amplitude unit, approximating a hyperbolic tangent
/// by the rational curve x (27 + x^2) / (27 + 9 x^2) on [-3, 3] and
/// saturating outside it.
pub open spec fn soft_clamp_spec(x: int) -> int {
    let sc = SCALE as int;
    if x > 3 * sc {
        sc
    } else if x < -3 * sc {
        -sc
    } else {
        trunc_div(x * (27 * sc * sc + x * x), 27 * sc * sc + 9 * x * x)
    }
}

/// On [0, 3], the curve stays at or below one unit:
/// S (27 S^2 + 9 a^2) - a (27 S^2 + a^2) equals (3 S - a)^3 >= 0.
proof fn lemma_curve_bound(a: int, a2: int)
    requires
        0 <= a <= 3 * (SCALE as int),
        a2 == a * a,
    ensures
        a * (27 * (SCALE as int) * (SCALE as int) + a2) <= (SCALE as int) * (27 * (
        SCALE as int) * (SCALE as int) + 9 * a2),
{
    let sc = SCALE as int;
    assert(a * (27 * sc * sc + a2) <= sc * (27 * sc * sc + 9 * a2)) by (nonlinear_arith)
        requires
            0 <= a <= 3 * sc,
            a2 == a * a,
    ;
}

/// Saturates one sample.
pub fn soft_clamp(x: i64) -> (r: i64)
    ensures
        r == soft_clamp_spec(x as int),
        in_range(r),
{
    let sc: i64 = SCALE;
    if x > 3 * sc {
        return sc;
    }
    if x < -3 * sc {
        return -sc;
    }
    let neg = x < 0;
    let a: u64 = if neg {
        (-x) as u64
    } else {
        x as u64
    };
    proof {
        let ai = a as int;
        let xi = x as int;
        let sci = SCALE as int;
        assert(ai <= 3 * sci);
        assert(ai * ai <= (3 * sci) * (3 * sci)) by (nonlinear_arith)
            requires
                0 <= ai <= 3 * sci,
        ;
        assert(ai * (27 * sci * sci + ai * ai) <= (3 * sci) * (27 * sci * sci + (3 * sci) * (3
            * sci))) by (nonlinear_arith)
            requires
                0 <= ai <= 3 * sci,
                ai * ai <= (3 * sci) * (3 * sci),
        ;
    }
    let a2: u64 = a * a;
    let num: u64 = a * (27 * (SCALE as u64) * (SCALE as u64) + a2);
    let den: u64 = 27 * (SCALE as u64) * (SCALE as u64) + 9 * a2;
    proof {
        let ai = a as int;
        let xi = x as int;
        let sci = SCALE as int;
        let ni = num as int;
        let di = den as int;
        lemma_curve_bound(ai, a2 as int);
        assert(ni <= sci * di);
        assert(sci * di == di * sci) by (nonlinear_arith);
        lemma_div_pos_is_pos(ni, di);
        lemma_div_is_ordered(ni, di * sci, di);
        lemma_div_multiples_vanish(sci, di);
        if neg {
            assert(xi * (27 * sci * sci + xi * xi) == -ni && 27 * sci * sci + 9 * xi * xi
                == di) by (nonlinear_arith)
                requires
                    ai == -xi,
                    a2 == ai * ai,
                    ni == ai * (27 * sci * sci + a2),
                    di == 27 * sci * sci + 9 * (a2 as int),
            ;
        } else {
            assert(xi * (27 * sci * sci + xi * xi) == ni && 27 * sci * sci + 9 * xi * xi
                == di) by (nonlinear_arith)
                requires
                    ai == xi,
                    a2 == ai * ai,
                    ni == ai * (27 * sci * sci + a2),
                    di == 27 * sci * sci + 9 * (a2 as int),
            ;
        }
    }
    let q: u64 = num / den;
    if neg {
        -(q as i64)
    } else {
        q as i64
    }
}

/// Saturates every sample of a vector in place.
pub fn clamp_samples(samples: &mut Vec<i64>)
    ensures
        final(samples)@.len() == old(samples)@.len(),
        forall|i: int|
            0 <= i < old(samples)@.len() ==> final(samples)@[i] == soft_clamp_spec(
                old(samples)@[i] as int,
            ),
        crate::buffer::all_in_range(final(samples)@),
{
    let n = samples.len();
    let mut i: usize = 0;
    while i < n
        invariant
            n == samples@.len(),
            i <= n,
            samples@.len() == old(samples)@.len(),
            forall|j: int| i <= j < n ==> samples@[j] == old(samples)@[j],
            forall|j: int|
                0 <= j < i ==> samples@[j] == soft_clamp_spec(old(samples)@[j] as int),
            forall|j: int| 0 <= j < i ==> in_range(#[trigger] samples@[j]),
        decreases n - i,
    {
        let v = soft_clamp(samples[i]);
        samples.set(i, v);
        i += 1;
    }
}

} // verus!
