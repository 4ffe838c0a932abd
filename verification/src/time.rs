use vstd::prelude::*;
use vstd::string::StringSliceAdditionalSpecFns;
use crate::buffer::{MAX_RATE, MAX_SAMPLES};
use crate::error::Error;
use crate::rat::Rat;

verus! {

/// Whether a byte is a decimal digit.
pub open spec fn is_digit(b: u8) -> bool {
    48 <= b <= 57
}

/// The value of a digit string, most significant first.
pub open spec fn digits_val(s: Seq<u8>) -> int
    decreases s.len(),
{
    if s.len() == 0 {
        0
    } else {
        digits_val(s.drop_last()) * 10 + (s.last() - 48)
    }
}

/// The shape of a decimal number: every byte a digit except one optional
/// point at position k (k == s.len() means no point), at least one digit,
/// at most nine digits in all.
pub open spec fn spec_dec_at(s: Seq<u8>, k: int) -> bool {
    &&& 0 <= k <= s.len()
    &&& (k == s.len() || s[k] == 46)
    &&& forall|j: int| 0 <= j < s.len() && j != k ==> is_digit(#[trigger] s[j])
    &&& (if k < s.len() {
        2 <= s.len() <= 10
    } else {
        1 <= s.len() <= 9
    })
}

/// Whether a byte string is a well-shaped decimal number.
pub open spec fn spec_dec_ok(s: Seq<u8>) -> bool {
    exists|k: int| spec_dec_at(s, k)
}

/// The point position of a well-shaped decimal (s.len() when none).
pub open spec fn spec_dec_dot(s: Seq<u8>) -> int {
    choose|k: int| spec_dec_at(s, k)
}

/// The numerator of a well-shaped decimal: its digits, the point removed,
/// read as one integer.
pub open spec fn spec_dec_num(s: Seq<u8>) -> int {
    let k = spec_dec_dot(s);
    if k < s.len() {
        digits_val(s.subrange(0, k)) * pow10((s.len() - k - 1) as nat) + digits_val(
            s.subrange(k + 1, s.len() as int),
        )
    } else {
        digits_val(s)
    }
}

/// The denominator of a well-shaped decimal: one, with a zero appended per
/// fractional digit.
pub open spec fn spec_dec_den(s: Seq<u8>) -> int {
    let k = spec_dec_dot(s);
    if k < s.len() {
        pow10((s.len() - k - 1) as nat)
    } else {
        1
    }
}

/// The largest numerator or denominator a time expression may carry.
pub const MAX_TIME_PART: u64 = 0x4000_0000_0000_0000;

/// The tighter bound resolve requires, so that the product of two
/// rationals stays within a machine word.
pub const MAX_RESOLVE_PART: u64 = 0x1_0000_0000;

/// A time expression: an absolute number of seconds, or a fraction of the
/// duration of the buffer it is resolved against.
#[derive(Debug)]
pub enum Time {
    Absolute(Rat),
    Fraction(Rat),
}

/// Rounding to the nearest integer, halves rounding up: (2 n + d) / (2 d).
pub open spec fn round_div(n: int, d: int) -> int {
    (2 * n + d) / (2 * d)
}

impl Time {
    pub open spec fn wf(&self) -> bool {
        match self {
            Time::Absolute(r) => 1 <= r.den <= MAX_TIME_PART && r.num <= MAX_TIME_PART,
            Time::Fraction(r) => 1 <= r.den <= MAX_TIME_PART && r.num <= MAX_TIME_PART,
        }
    }

    /// The frame index or frame count this expression stands for, against a
    /// buffer of `frames` frames at `rate` frames per second: the resolved
    /// number of seconds times the rate, rounded to the nearest frame.
    pub open spec fn spec_frames(&self, frames: int, rate: int) -> int {
        match self {
            Time::Absolute(r) => round_div(r.num * rate, r.den as int),
            Time::Fraction(r) => round_div(frames * r.num, r.den as int),
        }
    }

    /// An absolute time of num / den seconds.
    pub fn abs(num: u64, den: u64) -> (r: Time)
        requires
            1 <= den <= MAX_TIME_PART,
            num <= MAX_TIME_PART,
        ensures
            r == Time::Absolute(Rat { num, den }),
            r.wf(),
    {
        Time::Absolute(Rat { num, den })
    }

    /// A fraction num / den of a total duration.
    pub fn fract(num: u64, den: u64) -> (r: Time)
        requires
            1 <= den <= MAX_TIME_PART,
            num <= MAX_TIME_PART,
        ensures
            r == Time::Fraction(Rat { num, den }),
            r.wf(),
    {
        Time::Fraction(Rat { num, den })
    }

    /// Resolves this expression against a total duration, giving absolute
    /// seconds: an absolute time passes through unchanged, a fraction
    /// multiplies the total duration.
    pub fn resolve(&self, total_duration: &Rat) -> (r: Result<Rat, Error>)
        requires
            self.wf(),
            match self {
                Time::Absolute(t) => t.num <= MAX_RESOLVE_PART && t.den <= MAX_RESOLVE_PART,
                Time::Fraction(t) => t.num <= MAX_RESOLVE_PART && t.den <= MAX_RESOLVE_PART,
            },
            total_duration.wf(),
            total_duration.num <= MAX_SAMPLES,
            total_duration.den <= MAX_RATE,
        ensures
            match r {
                Ok(sec) => {
                    &&& sec.wf()
                    &&& match self {
                        Time::Absolute(t) => sec == *t,
                        Time::Fraction(t) => sec.num == t.num * total_duration.num
                            && sec.den == t.den * total_duration.den,
                    }
                },
                Err(_) => false,
            },
    {
        match self {
            Time::Absolute(t) => Ok(Rat { num: t.num, den: t.den }),
            Time::Fraction(t) => {
                proof {
                    assert(t.num * total_duration.num <= MAX_RESOLVE_PART * MAX_SAMPLES)
                        by (nonlinear_arith)
                        requires
                            t.num <= MAX_RESOLVE_PART,
                            total_duration.num <= MAX_SAMPLES,
                    ;
                    assert(t.den * total_duration.den <= MAX_RESOLVE_PART * MAX_RATE
                        && t.den * total_duration.den >= 1) by (nonlinear_arith)
                        requires
                            1 <= t.den <= MAX_RESOLVE_PART,
                            1 <= total_duration.den <= MAX_RATE,
                    ;
                }
                let num = t.num * total_duration.num;
                let den = t.den * total_duration.den;
                Ok(Rat { num, den })
            },
        }
    }

    /// Resolves this expression directly to frames, against a buffer of
    /// `frames` frames at `rate` frames per second.
    pub fn resolve_frames(&self, frames: u64, rate: u64) -> (r: u128)
        requires
            self.wf(),
            frames <= MAX_SAMPLES,
            1 <= rate <= MAX_RATE,
        ensures
            r == self.spec_frames(frames as int, rate as int),
    {
        let (n, d): (u128, u128) = match self {
            Time::Absolute(t) => {
                proof {
                    assert(t.num * rate <= MAX_TIME_PART * MAX_RATE) by (nonlinear_arith)
                        requires
                            t.num <= MAX_TIME_PART,
                            rate <= MAX_RATE,
                    ;
                }
                ((t.num as u128) * (rate as u128), t.den as u128)
            },
            Time::Fraction(t) => {
                proof {
                    assert(frames * t.num <= MAX_SAMPLES * MAX_TIME_PART) by (nonlinear_arith)
                        requires
                            t.num <= MAX_TIME_PART,
                            frames <= MAX_SAMPLES,
                    ;
                }
                ((frames as u128) * (t.num as u128), t.den as u128)
            },
        };
        let q: u128 = (2 * n + d) / (2 * d);
        proof {
            vstd::arithmetic::div_mod::lemma_div_nonincreasing((2 * n + d) as int, (2 * d) as int);
            vstd::arithmetic::div_mod::lemma_div_pos_is_pos((2 * n + d) as int, (2 * d) as int);
        }
        q
    }
}

/// Parses the digit range [lo, hi) of a byte string.
fn parse_digits(s: &[u8], lo: usize, hi: usize) -> (r: u64)
    requires
        lo <= hi <= s@.len(),
        hi - lo <= 9,
        forall|i: int| lo <= i < hi ==> is_digit(#[trigger] s@[i]),
    ensures
        r == digits_val(s@.subrange(lo as int, hi as int)),
        r < 1_000_000_000,
{
    let mut v: u64 = 0;
    let mut i: usize = lo;
    proof {
        assert(s@.subrange(lo as int, lo as int) =~= Seq::<u8>::empty());
    }
    while i < hi
        invariant
            lo <= i <= hi <= s@.len(),
            hi - lo <= 9,
            forall|j: int| lo <= j < hi ==> is_digit(#[trigger] s@[j]),
            v == digits_val(s@.subrange(lo as int, i as int)),
            v < pow10((i - lo) as nat),
        decreases hi - i,
    {
        let d = s[i];
        proof {
            let pre = s@.subrange(lo as int, i + 1);
            assert(pre.drop_last() =~= s@.subrange(lo as int, i as int));
            assert(pre.last() == s@[i as int]);
            lemma_pow10_mono((i - lo) as nat, 9);
        }
        v = v * 10 + ((d - 48) as u64);
        i += 1;
    }
    proof {
        lemma_pow10_mono((hi - lo) as nat, 9);
    }
    v
}

pub open spec fn pow10(n: nat) -> int
    decreases n,
{
    if n == 0 {
        1
    } else {
        10 * pow10((n - 1) as nat)
    }
}

proof fn lemma_pow10_pos(n: nat)
    ensures
        pow10(n) >= 1,
    decreases n,
{
    if n > 0 {
        lemma_pow10_pos((n - 1) as nat);
    }
}

proof fn lemma_pow10_mono(a: nat, b: nat)
    requires
        a <= b,
    ensures
        pow10(a) <= pow10(b),
        pow10(9) == 1_000_000_000,
    decreases b,
{
    lemma_pow10_pos(a);
    lemma_pow10_pos(b);
    assert(pow10(0) == 1);
    assert(pow10(1) == 10);
    assert(pow10(2) == 100);
    assert(pow10(3) == 1000);
    assert(pow10(4) == 10000);
    assert(pow10(5) == 100000);
    assert(pow10(6) == 1000000);
    assert(pow10(7) == 10000000);
    assert(pow10(8) == 100000000);
    assert(pow10(9) == 1_000_000_000);
    if a < b {
        lemma_pow10_mono(a, (b - 1) as nat);
        lemma_pow10_pos((b - 1) as nat);
        assert(pow10(b) == 10 * pow10((b - 1) as nat));
    }
}

/// A well-shaped decimal admits exactly one point position.
proof fn lemma_dec_at_unique(s: Seq<u8>, k1: int, k2: int)
    requires
        spec_dec_at(s, k1),
        spec_dec_at(s, k2),
    ensures
        k1 == k2,
{
    if k1 < k2 {
        assert(k1 < s.len());
        assert(is_digit(s[k1]));
        assert(s[k1] == 46);
    }
    if k2 < k1 {
        assert(k2 < s.len());
        assert(is_digit(s[k2]));
        assert(s[k2] == 46);
    }
}

/// No byte string holding a slash is a well-shaped decimal.
proof fn lemma_no_dec_with_slash(s: Seq<u8>, p: int)
    requires
        0 <= p < s.len(),
        s[p] == 47,
    ensures
        !spec_dec_ok(s),
{
    assert forall|k: int| !spec_dec_at(s, k) by {
        if spec_dec_at(s, k) {
            if k != p {
                assert(is_digit(s[p]));
            }
        }
    }
}

/// The parts of a well-shaped decimal stay below one billion, and the whole
/// numerator below 10^18.
proof fn lemma_dec_bounds(s: Seq<u8>)
    requires
        spec_dec_ok(s),
    ensures
        0 <= spec_dec_num(s) < 1_000_000_000_000_000_000,
        1 <= spec_dec_den(s) <= 1_000_000_000,
{
    let k = spec_dec_dot(s);
    assert(spec_dec_at(s, k));
    if k < s.len() {
        let ip = s.subrange(0, k);
        let fp = s.subrange(k + 1, s.len() as int);
        assert(forall|i: int| 0 <= i < ip.len() ==> is_digit(#[trigger] ip[i])) by {
            assert(forall|i: int| 0 <= i < ip.len() ==> ip[i] == s[i]);
        }
        assert(forall|i: int| 0 <= i < fp.len() ==> is_digit(#[trigger] fp[i])) by {
            assert(forall|i: int| 0 <= i < fp.len() ==> fp[i] == s[k + 1 + i]);
        }
        lemma_digits_val_bounds(ip);
        lemma_digits_val_bounds(fp);
        lemma_pow10_pos((s.len() - k - 1) as nat);
        lemma_pow10_mono((s.len() - k - 1) as nat, 9);
        assert(digits_val(ip) * pow10((s.len() - k - 1) as nat) <= (1_000_000_000int - 1)
            * 1_000_000_000int && digits_val(ip) * pow10((s.len() - k - 1) as nat) >= 0)
            by (nonlinear_arith)
            requires
                0 <= digits_val(ip) <= 1_000_000_000int - 1,
                1 <= pow10((s.len() - k - 1) as nat) <= 1_000_000_000int,
        ;
    } else {
        lemma_digits_val_bounds(s);
    }
}

/// Parses the range [lo, hi) as a non-negative decimal number, giving its
/// value as an exact rational.
fn parse_dec(s: &[u8], lo: usize, hi: usize) -> (r: Option<Rat>)
    requires
        lo <= hi <= s@.len(),
    ensures
        ({
            let sub = s@.subrange(lo as int, hi as int);
            match r {
                Some(v) => {
                    &&& spec_dec_ok(sub)
                    &&& v.num == spec_dec_num(sub)
                    &&& v.den == spec_dec_den(sub)
                    &&& v.num < 1_000_000_000_000_000_000
                    &&& 1 <= v.den <= 1_000_000_000
                    &&& v.wf()
                },
                None => !spec_dec_ok(sub),
            }
        }),
{
    // find a point, if any
    let mut dot: usize = hi;
    let mut i: usize = lo;
    while i < hi
        invariant
            lo <= i <= hi <= s@.len(),
            dot == hi || (lo <= dot < i && s@[dot as int] == 46),
            dot < hi ==> forall|j: int| lo <= j < dot ==> s@[j] != 46,
            dot == hi ==> forall|j: int| lo <= j < i ==> s@[j] != 46,
        decreases hi - i,
    {
        if dot == hi && s[i] == 46 {
            dot = i;
        }
        i += 1;
    }
    let int_hi = dot;
    let frac_lo = if dot < hi {
        dot + 1
    } else {
        hi
    };
    if int_hi == lo && frac_lo == hi {
        proof {
            let sub = s@.subrange(lo as int, hi as int);
            assert forall|k: int| !spec_dec_at(sub, k) by {
                if spec_dec_at(sub, k) {
                    if dot < hi {
                        assert(sub.len() == 1);
                        assert(sub[0] == s@[dot as int]);
                        if k == 1 {
                            assert(is_digit(sub[0]));
                        }
                    } else {
                        assert(sub.len() == 0);
                    }
                }
            }
        }
        return None;
    }
    if (int_hi - lo) + (hi - frac_lo) > 9 {
        proof {
            let sub = s@.subrange(lo as int, hi as int);
            assert forall|k: int| !spec_dec_at(sub, k) by {
                if spec_dec_at(sub, k) {
                    if dot < hi {
                        assert(sub[dot - lo] == s@[dot as int]);
                        if k != dot - lo {
                            assert(is_digit(sub[dot - lo]));
                        }
                        // k is the point, so the digit count is len - 1 <= 9
                        assert(sub.len() <= 10);
                    } else {
                        if k < sub.len() {
                            assert(sub[k] == s@[lo + k]);
                        }
                        assert(sub.len() <= 9);
                    }
                }
            }
        }
        return None;
    }
    // every remaining byte must be a digit
    let mut k: usize = lo;
    while k < int_hi
        invariant
            lo <= k <= int_hi <= hi <= s@.len(),
            int_hi == dot,
            dot == hi || (dot < hi && s@[dot as int] == 46),
            dot < hi ==> forall|j: int| lo <= j < dot ==> s@[j] != 46,
            dot == hi ==> forall|j: int| lo <= j < hi ==> s@[j] != 46,
            forall|j: int| lo <= j < k ==> is_digit(#[trigger] s@[j]),
        decreases int_hi - k,
    {
        let b = s[k];
        if b < 48 || b > 57 {
            proof {
                let sub = s@.subrange(lo as int, hi as int);
                assert(sub[k - lo] == s@[k as int]);
                assert forall|kq: int| !spec_dec_at(sub, kq) by {
                    if spec_dec_at(sub, kq) {
                        if kq != k - lo {
                            assert(is_digit(sub[k - lo]));
                        } else {
                            // the bad byte sits before any point, so it is
                            // not the point itself
                            assert(sub[kq] == 46 || kq == sub.len());
                        }
                    }
                }
            }
            return None;
        }
        k += 1;
    }
    let mut k2: usize = frac_lo;
    while k2 < hi
        invariant
            lo <= int_hi <= hi <= s@.len(),
            int_hi == dot,
            frac_lo <= k2 <= hi,
            dot == hi ==> frac_lo == hi,
            dot < hi ==> frac_lo == dot + 1 && s@[dot as int] == 46,
            forall|j: int| frac_lo <= j < k2 ==> is_digit(#[trigger] s@[j]),
        decreases hi - k2,
    {
        let b = s[k2];
        if b < 48 || b > 57 {
            proof {
                let sub = s@.subrange(lo as int, hi as int);
                assert(sub[k2 - lo] == s@[k2 as int]);
                assert(sub[dot - lo] == s@[dot as int]);
                assert forall|kq: int| !spec_dec_at(sub, kq) by {
                    if spec_dec_at(sub, kq) {
                        if kq != k2 - lo {
                            assert(is_digit(sub[k2 - lo]));
                        } else {
                            assert(is_digit(sub[dot - lo]));
                        }
                    }
                }
            }
            return None;
        }
        k2 += 1;
    }
    let ipart = parse_digits(s, lo, int_hi);
    let fpart = parse_digits(s, frac_lo, hi);
    let flen = hi - frac_lo;
    let mut den: u64 = 1;
    let mut f: usize = 0;
    while f < flen
        invariant
            f <= flen <= 9,
            den == pow10(f as nat),
            den <= 1_000_000_000,
        decreases flen - f,
    {
        proof {
            lemma_pow10_mono(f as nat, 9);
            lemma_pow10_mono((f + 1) as nat, 9);
        }
        den = den * 10;
        f += 1;
    }
    proof {
        lemma_pow10_mono(flen as nat, 9);
        assert(0 <= (ipart as int) * (den as int) <= 1_000_000_000int * 1_000_000_000int)
            by (nonlinear_arith)
            requires
                0 <= ipart < 1_000_000_000,
                0 <= den <= 1_000_000_000,
        ;
    }
    let num = ipart * den + fpart;
    proof {
        lemma_pow10_pos(flen as nat);
        let sub = s@.subrange(lo as int, hi as int);
        let kk: int = if dot < hi {
            dot - lo
        } else {
            sub.len() as int
        };
        assert(spec_dec_at(sub, kk)) by {
            assert(forall|j: int|
                0 <= j < sub.len() && j != kk ==> is_digit(#[trigger] sub[j])) by {
                assert(forall|j: int| 0 <= j < sub.len() ==> sub[j] == s@[lo + j]);
            }
            if dot < hi {
                assert(sub[kk] == s@[dot as int]);
            }
        }
        assert(spec_dec_ok(sub));
        let kc = spec_dec_dot(sub);
        assert(spec_dec_at(sub, kc));
        lemma_dec_at_unique(sub, kc, kk);
        assert(sub.subrange(0, kk) =~= s@.subrange(lo as int, int_hi as int));
        if dot < hi {
            assert(sub.subrange(kk + 1, sub.len() as int) =~= s@.subrange(
                frac_lo as int,
                hi as int,
            ));
        } else {
            assert(sub =~= s@.subrange(lo as int, int_hi as int));
            assert(den == 1 && fpart == 0) by {
                assert(s@.subrange(frac_lo as int, hi as int) =~= Seq::<u8>::empty());
            }
            assert((ipart as int) * 1 == ipart as int) by (nonlinear_arith);
        }
        lemma_dec_bounds(sub);
    }
    Some(Rat { num, den })
}

/// The shape of a fraction: a slash at position m with a well-shaped
/// decimal on each side, a nonzero denominator, and both resulting parts
/// within the range time expressions carry.
pub open spec fn spec_frac_at(s: Seq<u8>, m: int) -> bool {
    &&& 0 <= m < s.len()
    &&& s[m] == 47
    &&& spec_dec_ok(s.subrange(0, m))
    &&& spec_dec_ok(s.subrange(m + 1, s.len() as int))
    &&& spec_dec_num(s.subrange(m + 1, s.len() as int)) != 0
    &&& spec_dec_num(s.subrange(0, m)) * spec_dec_den(s.subrange(m + 1, s.len() as int))
        <= MAX_TIME_PART
    &&& spec_dec_den(s.subrange(0, m)) * spec_dec_num(s.subrange(m + 1, s.len() as int))
        <= MAX_TIME_PART
}

/// A well-formed time string: a decimal number of seconds, or two decimal
/// parts around a slash.
pub open spec fn spec_time_ok(s: Seq<u8>) -> bool {
    spec_dec_ok(s) || (exists|m: int| spec_frac_at(s, m))
}

/// The expression a well-formed time string stands for.
pub open spec fn spec_time_of(s: Seq<u8>) -> Time {
    if spec_dec_ok(s) {
        Time::Absolute(Rat { num: spec_dec_num(s) as u64, den: spec_dec_den(s) as u64 })
    } else {
        let m = choose|m: int| spec_frac_at(s, m);
        let l = s.subrange(0, m);
        let rp = s.subrange(m + 1, s.len() as int);
        Time::Fraction(
            Rat {
                num: ((spec_dec_num(l) * spec_dec_den(rp)) as u64),
                den: ((spec_dec_den(l) * spec_dec_num(rp)) as u64),
            },
        )
    }
}

/// A well-formed fraction admits exactly one slash position.
proof fn lemma_frac_at_unique(s: Seq<u8>, m1: int, m2: int)
    requires
        spec_frac_at(s, m1),
        spec_frac_at(s, m2),
    ensures
        m1 == m2,
{
    if m1 < m2 {
        assert(s.subrange(0, m2)[m1] == s[m1]);
        lemma_no_dec_with_slash(s.subrange(0, m2), m1);
    }
    if m2 < m1 {
        assert(s.subrange(0, m1)[m2] == s[m2]);
        lemma_no_dec_with_slash(s.subrange(0, m1), m2);
    }
}

impl Time {
    /// Parses a time expression: a non-negative decimal number of seconds
    /// ("2", "0.25"), or a fraction of a whole duration written with a
    /// slash ("1/2", "3/4").  At most nine digits on each side of a point;
    /// a zero denominator or any other shape is rejected.
    pub fn from_str(s: &str) -> (r: Result<Time, Error>)
        ensures
            match r {
                Ok(t) => {
                    &&& spec_time_ok(s.spec_bytes())
                    &&& t == spec_time_of(s.spec_bytes())
                    &&& t.wf()
                },
                Err(e) => {
                    &&& e == Error::InvalidTime
                    &&& !spec_time_ok(s.spec_bytes())
                },
            },
    {
        let bytes = s.as_bytes();
        let n = bytes.len();
        // find the first slash, if any
        let mut slash: usize = n;
        let mut i: usize = 0;
        while i < n
            invariant
                i <= n <= bytes@.len() && n == bytes@.len(),
                slash == n || (slash < i && bytes@[slash as int] == 47),
                slash < n ==> forall|j: int| 0 <= j < slash ==> bytes@[j] != 47,
                slash == n ==> forall|j: int| 0 <= j < i ==> bytes@[j] != 47,
            decreases n - i,
        {
            if slash == n && bytes[i] == 47 {
                slash = i;
            }
            i += 1;
        }
        proof {
            assert(bytes@.subrange(0, n as int) =~= s.spec_bytes());
        }
        if slash == n {
            match parse_dec(bytes, 0, n) {
                Some(v) => {
                    proof {
                        lemma_dec_bounds(s.spec_bytes());
                    }
                    Ok(Time::Absolute(Rat { num: v.num, den: v.den }))
                },
                None => {
                    proof {
                        assert forall|m: int| !spec_frac_at(s.spec_bytes(), m) by {
                            if spec_frac_at(s.spec_bytes(), m) {
                                assert(s.spec_bytes()[m] == 47);
                            }
                        }
                    }
                    Err(Error::InvalidTime)
                },
            }
        } else {
            let ghost sb = s.spec_bytes();
            proof {
                lemma_no_dec_with_slash(sb, slash as int);
                assert(bytes@.subrange(0, slash as int) == sb.subrange(0, slash as int));
                assert(bytes@.subrange(slash + 1, n as int) == sb.subrange(
                    slash + 1,
                    sb.len() as int,
                ));
            }
            let a = match parse_dec(bytes, 0, slash) {
                Some(v) => v,
                None => {
                    proof {
                        lemma_only_first_slash(sb, slash as int);
                    }
                    return Err(Error::InvalidTime);
                },
            };
            let b = match parse_dec(bytes, slash + 1, n) {
                Some(v) => v,
                None => {
                    proof {
                        lemma_only_first_slash(sb, slash as int);
                    }
                    return Err(Error::InvalidTime);
                },
            };
            if b.num == 0 {
                proof {
                    lemma_only_first_slash(sb, slash as int);
                }
                return Err(Error::InvalidTime);
            }
            proof {
                lemma_dec_bounds(sb.subrange(0, slash as int));
                lemma_dec_bounds(sb.subrange(slash + 1, sb.len() as int));
                assert((a.num as int) * (b.den as int) < 1_000_000_000_000_000_000int
                    * 1_000_000_001int && 1 <= (a.den as int) * (b.num as int)
                    < 1_000_000_001int * 1_000_000_000_000_000_000int) by (nonlinear_arith)
                    requires
                        0 <= a.num < 1_000_000_000_000_000_000,
                        1 <= a.den <= 1_000_000_000,
                        1 <= b.num < 1_000_000_000_000_000_000,
                        1 <= b.den <= 1_000_000_000,
                ;
            }
            let num: u128 = (a.num as u128) * (b.den as u128);
            let den: u128 = (a.den as u128) * (b.num as u128);
            if num > MAX_TIME_PART as u128 || den > MAX_TIME_PART as u128 {
                proof {
                    lemma_only_first_slash(sb, slash as int);
                }
                return Err(Error::InvalidTime);
            }
            proof {
                assert(spec_frac_at(sb, slash as int));
                lemma_only_first_slash(sb, slash as int);
                let mc = choose|m: int| spec_frac_at(sb, m);
                assert(spec_frac_at(sb, mc));
                lemma_frac_at_unique(sb, mc, slash as int);
            }
            Ok(Time::Fraction(Rat { num: num as u64, den: den as u64 }))
        }
    }
}

/// Any candidate slash split must use the first slash: a later split would
/// carry that slash inside its left part.
proof fn lemma_only_first_slash(s: Seq<u8>, p: int)
    requires
        0 <= p < s.len(),
        s[p] == 47,
        forall|j: int| 0 <= j < p ==> s[j] != 47,
    ensures
        forall|m: int| spec_frac_at(s, m) ==> m == p,
{
    assert forall|m: int| spec_frac_at(s, m) implies m == p by {
        if m > p {
            assert(s.subrange(0, m)[p] == s[p]);
            lemma_no_dec_with_slash(s.subrange(0, m), p);
        }
        if m < p {
            assert(s[m] == 47);
        }
    }
}

/// A digit string of at most nine digits stays below one billion.
proof fn lemma_digits_val_bounds(s: Seq<u8>)
    requires
        s.len() <= 9,
        forall|i: int| 0 <= i < s.len() ==> is_digit(#[trigger] s[i]),
    ensures
        0 <= digits_val(s) < 1_000_000_000,
    decreases s.len(),
{
    if s.len() == 0 {
    } else {
        lemma_digits_val_bounds_n(s, s.len() as nat);
        lemma_pow10_mono(s.len() as nat, 9);
    }
}

proof fn lemma_digits_val_bounds_n(s: Seq<u8>, n: nat)
    requires
        n == s.len(),
        forall|i: int| 0 <= i < s.len() ==> is_digit(#[trigger] s[i]),
    ensures
        0 <= digits_val(s) < pow10(n),
    decreases n,
{
    if n > 0 {
        lemma_digits_val_bounds_n(s.drop_last(), (n - 1) as nat);
    }
}

/// Rounding a zero numerator gives zero.
pub proof fn lemma_round_div_zero(d: int)
    requires
        d >= 1,
    ensures
        round_div(0, d) == 0,
{
    assert(round_div(0, d) == (2 * 0 + d) / (2 * d));
    assert(2 * 0 + d == d);
    assert(0 <= d < 2 * d);
    vstd::arithmetic::div_mod::lemma_basic_div(d, 2 * d);
}

} // verus!
