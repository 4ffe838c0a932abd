use vstd::prelude::*;
use crate::buffer::Buffer;
use crate::rat::Rat;
use crate::resize::{spec_resize_den, spec_resize_num};
use crate::speed::spec_new_frames;
use crate::split::spec_seg_range;
use crate::join::concat_upto;
use crate::time::{round_div, Time};
use vstd::arithmetic::div_mod::{
    lemma_div_multiples_vanish,
    lemma_div_multiples_vanish_quotient,
    lemma_fundamental_div_mod,
};

verus! {

/// Concatenating two buffers of one format adds their durations exactly:
/// the frame counts add, over the common sample rate.
pub proof fn lemma_add_duration(a: Buffer, b: Buffer, out: Buffer)
    requires
        a.wf(),
        b.wf(),
        a.fmt == b.fmt,
        out.fmt == a.fmt,
        out.samples@ == a.samples@ + b.samples@,
    ensures
        out.spec_frames() == a.spec_frames() + b.spec_frames(),
        out.spec_duration().num == a.spec_duration().num + b.spec_duration().num,
        out.spec_duration().den == a.spec_duration().den,
        out.spec_duration().den == b.spec_duration().den,
{
    let c = a.fmt.channels as int;
    let la = a.samples@.len() as int;
    let lb = b.samples@.len() as int;
    lemma_fundamental_div_mod(la, c);
    lemma_fundamental_div_mod(lb, c);
    let qa = la / c;
    let qb = lb / c;
    assert(la + lb == c * (qa + qb)) by (nonlinear_arith)
        requires
            la == c * qa,
            lb == c * qb,
    ;
    lemma_div_multiples_vanish(qa + qb, c);
}

/// A resized buffer's duration is the requested one, within one frame:
/// the new frame count over the rate brackets the target duration.
pub proof fn lemma_resize_duration(a: Buffer, d: Rat, out: Buffer)
    requires
        a.wf(),
        d.wf(),
        d.num >= 1,
        a.spec_frames() >= 1,
        out.fmt == a.fmt,
        out.spec_frames() == spec_new_frames(
            a.spec_frames(),
            spec_resize_num(a, d),
            spec_resize_den(a, d),
        ),
    ensures
        out.spec_frames() * d.den <= (a.fmt.sample_rate as int) * d.num,
        (a.fmt.sample_rate as int) * d.num < (out.spec_frames() + 1) * d.den,
{
    let f = a.spec_frames();
    let r = a.fmt.sample_rate as int;
    let dn = d.num as int;
    let dd = d.den as int;
    // the common factor f cancels out of the resample ratio
    lemma_div_multiples_vanish_quotient(f, r * dn, dd);
    assert(f * (r * dn) == (r * dn) * f && f * dd == dd * f) by (nonlinear_arith);
    assert(out.spec_frames() == (r * dn) / dd);
    let q = (r * dn) / dd;
    lemma_fundamental_div_mod(r * dn, dd);
    vstd::arithmetic::div_mod::lemma_mod_bound(r * dn, dd);
    assert(q * dd <= r * dn && r * dn < (q + 1) * dd) by (nonlinear_arith)
        requires
            r * dn == dd * q + (r * dn) % dd,
            0 <= (r * dn) % dd < dd,
    ;
}

/// A speed change by num / den gives floor(frames * den / num) frames, so
/// the new duration is the old one divided by the factor, within one frame:
/// factor 2 halves the frame count, factor 1/2 doubles it.
pub proof fn lemma_speed_duration(frames: int, num: int, den: int)
    requires
        frames >= 0,
        num >= 1,
        den >= 1,
    ensures
        spec_new_frames(frames, num, den) * num <= frames * den,
        frames * den < (spec_new_frames(frames, num, den) + 1) * num,
        num == 2 && den == 1 ==> spec_new_frames(frames, num, den) == frames / 2,
        num == 1 && den == 2 ==> spec_new_frames(frames, num, den) == 2 * frames,
{
    let q = (frames * den) / num;
    lemma_fundamental_div_mod(frames * den, num);
    vstd::arithmetic::div_mod::lemma_mod_bound(frames * den, num);
    assert(q * num <= frames * den && frames * den < (q + 1) * num) by (nonlinear_arith)
        requires
            frames * den == num * q + (frames * den) % num,
            0 <= (frames * den) % num < num,
    ;
    if num == 2 && den == 1 {
        assert(frames * 1 == frames) by (nonlinear_arith);
    }
    if num == 1 && den == 2 {
        lemma_div_multiples_vanish(frames * 2, 1);
        assert((frames * 2) / 1 == frames * 2) by {
            assert(1int * (frames * 2) == frames * 2) by (nonlinear_arith);
        }
        assert(frames * 2 == 2 * frames) by (nonlinear_arith);
    }
}

/// Joining every segment of a split reconstructs the original sample
/// sequence exactly, so in particular the total duration is unchanged.
pub proof fn lemma_split_join(a: Buffer, n: int, segs: Seq<Buffer>)
    requires
        a.wf(),
        n >= 1,
        segs.len() == n,
        forall|k: int|
            0 <= k < n ==> (#[trigger] segs[k]).samples@ == a.samples@.subrange(
                spec_seg_range(a, n, k).0,
                spec_seg_range(a, n, k).1,
            ),
    ensures
        concat_upto(segs, n) == a.samples@,
{
    let l = crate::split::spec_seg_samples(a, n);
    lemma_seg_prefix(a, n, segs, n);
    assert((n - 1) * l >= 0 && (n - 1) * l <= a.samples@.len()) by {
        lemma_seg_bounds(a, n, n - 1);
    }
    assert(concat_upto(segs, n) =~= a.samples@);
}

/// The first k segments concatenate to the prefix ending where segment k
/// begins.
proof fn lemma_seg_prefix(a: Buffer, n: int, segs: Seq<Buffer>, k: int)
    requires
        a.wf(),
        n >= 1,
        0 <= k <= n,
        segs.len() == n,
        forall|j: int|
            0 <= j < n ==> (#[trigger] segs[j]).samples@ == a.samples@.subrange(
                spec_seg_range(a, n, j).0,
                spec_seg_range(a, n, j).1,
            ),
    ensures
        concat_upto(segs, k) =~= a.samples@.subrange(
            0,
            if k == n {
                a.samples@.len() as int
            } else {
                k * crate::split::spec_seg_samples(a, n)
            },
        ),
    decreases k,
{
    let l = crate::split::spec_seg_samples(a, n);
    lemma_seg_bounds(a, n, k);
    if k == 0 {
        assert(0 * l == 0) by (nonlinear_arith);
    } else {
        lemma_seg_prefix(a, n, segs, k - 1);
        lemma_seg_bounds(a, n, k - 1);
        assert((k - 1) * l + l == k * l) by (nonlinear_arith);
    }
}

/// Every segment boundary lies inside the buffer.
pub proof fn lemma_seg_bounds(a: Buffer, n: int, k: int)
    requires
        a.wf(),
        n >= 1,
        0 <= k <= n,
    ensures
        0 <= k * crate::split::spec_seg_samples(a, n) <= a.samples@.len(),
{
    let c = a.fmt.channels as int;
    let len = a.samples@.len() as int;
    let f = a.spec_frames();
    let l = crate::split::spec_seg_samples(a, n);
    lemma_fundamental_div_mod(len, c);
    lemma_fundamental_div_mod(f, n);
    assert(f * c == len) by (nonlinear_arith)
        requires
            len == c * f + len % c,
            len % c == 0,
    ;
    assert(0 <= k * l && k * l <= f * c) by (nonlinear_arith)
        requires
            l == (f / n) * c,
            f == n * (f / n) + f % n,
            f % n >= 0,
            0 <= k <= n,
            c >= 1,
            f / n >= 0,
    ;
}

/// A cut whose start offset is at or beyond the buffer's duration resolves
/// to a frame index at or beyond the end, which cut rejects.
pub proof fn lemma_cut_start_beyond_end(a: Buffer, start: Time)
    requires
        a.wf(),
        start.wf(),
        match start {
            // at least duration(a) seconds: num / den >= frames / rate
            Time::Absolute(t) => (t.num as int) * (a.fmt.sample_rate as int) >= a.spec_frames()
                * (t.den as int),
            // a fraction of at least the whole: num >= den
            Time::Fraction(t) => t.num >= t.den,
        },
    ensures
        crate::cut::spec_cut_start(a, start) >= a.spec_frames(),
{
    let f = a.spec_frames();
    let r = a.fmt.sample_rate as int;
    match start {
        Time::Absolute(t) => {
            let tn = t.num as int;
            let td = t.den as int;
            assert(2 * (tn * r) + td >= f * (2 * td)) by (nonlinear_arith)
                requires
                    tn * r >= f * td,
                    td >= 1,
            ;
            assert(round_div(tn * r, td) >= f) by {
                vstd::arithmetic::div_mod::lemma_div_multiples_vanish(f, 2 * td);
                vstd::arithmetic::div_mod::lemma_div_is_ordered(
                    f * (2 * td),
                    2 * (tn * r) + td,
                    2 * td,
                );
                assert(f * (2 * td) == (2 * td) * f) by (nonlinear_arith);
            }
        },
        Time::Fraction(t) => {
            let tn = t.num as int;
            let td = t.den as int;
            assert(2 * (f * tn) + td >= f * (2 * td)) by (nonlinear_arith)
                requires
                    tn >= td,
                    td >= 1,
                    f >= 0,
            ;
            assert(round_div(f * tn, td) >= f) by {
                vstd::arithmetic::div_mod::lemma_div_multiples_vanish(f, 2 * td);
                vstd::arithmetic::div_mod::lemma_div_is_ordered(
                    f * (2 * td),
                    2 * (f * tn) + td,
                    2 * td,
                );
                assert(f * (2 * td) == (2 * td) * f) by (nonlinear_arith);
            }
        },
    }
}

} // verus!
