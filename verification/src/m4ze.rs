use vstd::prelude::*;
use crate::buffer::{Buffer, MAX_SAMPLES};
use crate::error::Error;
use crate::gain::{gain, AMP_NEG100DB};
use crate::join::{concat_upto, join};
use crate::laws::lemma_seg_bounds;
use crate::mix::mix;
use crate::rat::Rat;
use crate::resize::resize;
use crate::rng::{rng_below, rng_coin, rng_range_incl};
use crate::speed::speed;
use crate::split::{spec_seg_range, spec_seg_samples, split};

verus! {

/// The fixed segment count the maze blender slices each input into.
pub const M4ZE_SEGMENTS: usize = 64;

/// The sample count of the first k of 64 segments of a buffer: equal
/// slices, the last absorbing the remainder.
pub open spec fn spec_prefix64(b: Buffer, k: int) -> int {
    if k >= 64 {
        b.samples@.len() as int
    } else {
        k * spec_seg_samples(b, 64)
    }
}

/// Each segment's span, and how the prefixes chain.
proof fn lemma_prefix64_step(b: Buffer, k: int)
    requires
        b.wf(),
        b.spec_frames() / 64 >= 1,
        0 <= k < 64,
    ensures
        spec_seg_range(b, 64, k).1 - spec_seg_range(b, 64, k).0 >= 0,
        spec_prefix64(b, k + 1) == spec_prefix64(b, k) + (spec_seg_range(b, 64, k).1
            - spec_seg_range(b, 64, k).0),
        spec_prefix64(b, k) >= 0,
        spec_prefix64(b, k + 1) <= b.samples@.len(),
{
    let l = spec_seg_samples(b, 64);
    lemma_seg_bounds(b, 64, k);
    lemma_seg_bounds(b, 64, k + 1);
    lemma_seg_bounds(b, 64, 64);
    assert((k + 1) * l == k * l + l) by (nonlinear_arith);
    assert(64 * l <= b.samples@.len()) by {
        lemma_seg_bounds(b, 64, 64);
    }
}

/// The maze blender: duration-matches two inputs, slices both into 64
/// segments, and per segment pair branches three ways - mixing the pair
/// and silencing one, keeping one and silencing the other, or keeping one
/// and sometimes merging it with the next segment at double speed - to
/// build two interleaved layers that are finally mixed.  Layer one always
/// rejoins a full cover of the first input, so the output is at least as
/// long; with matching formats, at least 64 frames in the first input and
/// bounded sizes it succeeds for every draw.
pub fn m4ze(wavs: &Vec<Buffer>, rng: &mut rand::rngs::StdRng) -> (r: Result<Buffer, Error>)
    requires
        forall|k: int| 0 <= k < wavs@.len() ==> (#[trigger] wavs@[k]).wf(),
    ensures
        match r {
            Ok(out) => {
                &&& out.wf()
                &&& wavs@.len() >= 2
                &&& out.fmt == wavs@[0].fmt
                &&& out.samples@.len() >= wavs@[0].samples@.len()
                &&& wavs@[0].spec_frames() >= 64
            },
            Err(e) => {
                &&& e != Error::UnknownBlender && e != Error::UnknownEffect
                &&& (e == Error::EmptyInput <==> wavs@.len() < 2)
                &&& !(wavs@.len() >= 2 && wavs@[0].fmt == wavs@[1].fmt
                    && wavs@[0].spec_frames() >= 64 && wavs@[1].spec_frames() >= 1 && 4
                    * wavs@[0].samples@.len() <= MAX_SAMPLES)
            },
        },
{
    if wavs.len() < 2 {
        return Err(Error::EmptyInput);
    }
    let s1 = &wavs[0];
    let s1_len = crate::len::len(s1);
    let s2 = match resize(&wavs[1], &s1_len) {
        Ok(v) => v,
        Err(e) => {
            proof {
                if wavs@[0].fmt == wavs@[1].fmt && wavs@[1].spec_frames() >= 1 && wavs@[0].spec_frames() >= 64 {
                    lemma_resize_same_format(
                        wavs@[0].spec_frames(),
                        wavs@[1].spec_frames(),
                        wavs@[0].fmt.sample_rate as int,
                    );
                    lemma_frames_samples(wavs@[0]);
                }
            }
            return Err(e);
        },
    };
    proof {
        if wavs@[0].fmt == wavs@[1].fmt && wavs@[1].spec_frames() >= 1 {
            lemma_resize_same_format(
                wavs@[0].spec_frames(),
                wavs@[1].spec_frames(),
                wavs@[0].fmt.sample_rate as int,
            );
        }
    }
    let a = match split(s1, M4ZE_SEGMENTS) {
        Ok(v) => v,
        Err(e) => {
            return Err(e);
        },
    };
    let b = match split(&s2, M4ZE_SEGMENTS) {
        Ok(v) => v,
        Err(e) => {
            proof {
                lemma_frames_samples(wavs@[0]);
                lemma_frames_samples(s2);
            }
            return Err(e);
        },
    };
    proof {
        lemma_frames_samples(wavs@[0]);
        lemma_frames_samples(s2);
        vstd::arithmetic::div_mod::lemma_fundamental_div_mod(wavs@[0].spec_frames(), 64);
    }
    let normal = rng_below(rng, 3);
    let mut speeder = false;
    let mut speeder_rate: u64 = 0;
    if rng_below(rng, 3) == 0 {
        speeder = true;
        speeder_rate = rng_range_incl(rng, 1, 4);
    }
    let _clone_t = rng_coin(rng, 1, 2);
    let mut l1: Vec<Buffer> = Vec::new();
    let mut l2: Vec<Buffer> = Vec::new();
    let ghost s1v = wavs@[0];
    let ghost s2v = s2;
    let mut k: usize = 0;
    while k < M4ZE_SEGMENTS
        invariant
            wavs@.len() >= 2,
            forall|j: int| 0 <= j < wavs@.len() ==> (#[trigger] wavs@[j]).wf(),
            s1v == wavs@[0],
            s1v.wf(),
            s2v.wf(),
            s2v.fmt == wavs@[1].fmt,
            s1v.spec_frames() / 64 >= 1,
            s2v.spec_frames() / 64 >= 1,
            a@.len() == M4ZE_SEGMENTS,
            b@.len() == M4ZE_SEGMENTS,
            forall|j: int|
                0 <= j < a@.len() ==> (#[trigger] a@[j]).wf() && a@[j].fmt == s1v.fmt
                    && a@[j].samples@ == s1v.samples@.subrange(
                    spec_seg_range(s1v, 64, j).0,
                    spec_seg_range(s1v, 64, j).1,
                ),
            forall|j: int|
                0 <= j < b@.len() ==> (#[trigger] b@[j]).wf() && b@[j].fmt == s2v.fmt
                    && b@[j].samples@ == s2v.samples@.subrange(
                    spec_seg_range(s2v, 64, j).0,
                    spec_seg_range(s2v, 64, j).1,
                ),
            k <= M4ZE_SEGMENTS,
            speeder_rate <= 4,
            l1@.len() == k,
            l2@.len() == k,
            forall|j: int|
                0 <= j < l1@.len() ==> (#[trigger] l1@[j]).wf() && l1@[j].fmt == s1v.fmt,
            forall|j: int|
                0 <= j < l2@.len() ==> (#[trigger] l2@[j]).wf() && (l2@[j].fmt == s1v.fmt
                    || l2@[j].fmt == s2v.fmt),
            concat_upto(l1@, k as int).len() >= spec_prefix64(s1v, k as int),
            concat_upto(l1@, k as int).len() <= spec_prefix64(s1v, k as int) + spec_prefix64(
                s2v,
                k as int,
            ),
            concat_upto(l2@, k as int).len() <= spec_prefix64(s1v, k as int) + spec_prefix64(
                s2v,
                k as int,
            ) + spec_prefix64(s2v, if k + 1 < 64 { k + 1 } else { 64 }),
        decreases M4ZE_SEGMENTS - k,
    {
        proof {
            lemma_prefix64_step(s1v, k as int);
            lemma_prefix64_step(s2v, k as int);
            if k + 1 < 64 {
                lemma_prefix64_step(s2v, k + 1);
            }
        }
        let s = a[k].dup();
        let t = b[k].dup();
        let ghost pre_l1 = l1@;
        let ghost pre_l2 = l2@;
        let branch = rng_range_incl(rng, 1, 3);
        if branch == 1 {
            let merge = if normal == 1 {
                true
            } else if normal != 0 {
                rng_coin(rng, 1, 2)
            } else {
                false
            };
            if merge {
                let m = match mix(&s, &t, false) {
                    Ok(v) => v,
                    Err(e) => {
                        return Err(e);
                    },
                };
                l1.push(m);
                l2.push(gain(&s, AMP_NEG100DB));
            } else {
                l1.push(s);
                l2.push(t);
            }
        } else if branch == 2 {
            l1.push(s);
            l2.push(gain(&t, AMP_NEG100DB));
        } else {
            l1.push(gain(&s, AMP_NEG100DB));
            let stutter = if speeder && k + 1 < M4ZE_SEGMENTS {
                rng_range_incl(rng, 0, speeder_rate) == 0
            } else {
                false
            };
            if stutter {
                let double = Rat { num: 2, den: 1 };
                let t_fast = match speed(&t, &double) {
                    Ok(v) => v,
                    Err(e) => {
                        proof {
                            lemma_speed_half_small(t);
                        }
                        return Err(e);
                    },
                };
                let next_fast = match speed(&b[k + 1], &double) {
                    Ok(v) => v,
                    Err(e) => {
                        proof {
                            lemma_speed_half_small(b@[k + 1]);
                        }
                        return Err(e);
                    },
                };
                let merged = match crate::add::add(&t_fast, &next_fast) {
                    Ok(v) => v,
                    Err(e) => {
                        proof {
                            lemma_speed_half_small(t);
                            lemma_speed_half_small(b@[k + 1]);
                        }
                        return Err(e);
                    },
                };
                proof {
                    lemma_speed_half_small(t);
                    lemma_speed_half_small(b@[k + 1]);
                }
                l2.push(merged);
            } else {
                l2.push(t);
            }
        }
        proof {
            assert(forall|j: int| 0 <= j < k ==> l1@[j] == pre_l1[j] && l2@[j] == pre_l2[j]);
            lemma_concat_prefix_same(pre_l1, l1@, k as int);
            lemma_concat_prefix_same(pre_l2, l2@, k as int);
            assert(concat_upto(l1@, k + 1) == concat_upto(pre_l1, k as int) + l1@[
                k as int].samples@);
            assert(concat_upto(l2@, k + 1) == concat_upto(pre_l2, k as int) + l2@[
                k as int].samples@);
        }
        k += 1;
    }
    let layer1 = match join(&l1) {
        Ok(v) => v,
        Err(e) => {
            return Err(e);
        },
    };
    let layer2 = match join(&l2) {
        Ok(v) => v,
        Err(e) => {
            return Err(e);
        },
    };
    let out = match mix(&layer1, &layer2, false) {
        Ok(v) => v,
        Err(e) => {
            return Err(e);
        },
    };
    proof {
        vstd::arithmetic::div_mod::lemma_fundamental_div_mod(s1v.spec_frames(), 64);
    }
    Ok(out)
}

/// Doubling the speed of a well-formed buffer never overflows: the result
/// holds at most the source's samples.
proof fn lemma_speed_half_small(t: Buffer)
    requires
        t.wf(),
    ensures
        crate::speed::spec_new_frames(t.spec_frames(), 2, 1) * (t.fmt.channels as int)
            <= t.samples@.len(),
        crate::speed::spec_new_frames(t.spec_frames(), 2, 1) >= 0,
{
    let f = t.spec_frames();
    let c = t.fmt.channels as int;
    lemma_frames_samples(t);
    assert(f * 1 == f) by (nonlinear_arith);
    vstd::arithmetic::div_mod::lemma_div_nonincreasing(f, 2);
    vstd::arithmetic::div_mod::lemma_div_pos_is_pos(f, 2);
    assert((f / 2) * c <= f * c) by (nonlinear_arith)
        requires
            0 <= f / 2 <= f,
            c >= 1,
    ;
}

/// A well-formed buffer's sample count is frames times channels.
proof fn lemma_frames_samples(a: Buffer)
    requires
        a.wf(),
    ensures
        a.samples@.len() == a.spec_frames() * (a.fmt.channels as int),
        a.spec_frames() >= 0,
{
    let c = a.fmt.channels as int;
    let len = a.samples@.len() as int;
    vstd::arithmetic::div_mod::lemma_fundamental_div_mod(len, c);
    vstd::arithmetic::div_mod::lemma_div_pos_is_pos(len, c);
    assert(c * (len / c) == (len / c) * c) by (nonlinear_arith);
}

/// Resampling a buffer to the duration of another one with the same format
/// gives exactly that buffer's frame count.
proof fn lemma_resize_same_format(fa: int, fb: int, rate: int)
    requires
        fa >= 0,
        fb >= 1,
        rate >= 1,
    ensures
        crate::speed::spec_new_frames(fb, fb * rate, rate * fa) == fa,
{
    // (fb * (rate * fa)) / (fb * rate) == (rate * fa) / rate == fa
    vstd::arithmetic::div_mod::lemma_div_multiples_vanish_quotient(fb, rate * fa, rate);
    vstd::arithmetic::div_mod::lemma_div_multiples_vanish(fa, rate);
}

/// Appending one entry leaves the concatenation of the first k unchanged.
proof fn lemma_concat_prefix_same(pre: Seq<Buffer>, cur: Seq<Buffer>, k: int)
    requires
        0 <= k,
        pre.len() >= k,
        cur.len() >= k,
        forall|j: int| 0 <= j < k ==> pre[j] == cur[j],
    ensures
        concat_upto(cur, k) == concat_upto(pre, k),
    decreases k,
{
    if k > 0 {
        lemma_concat_prefix_same(pre, cur, k - 1);
    }
}

} // verus!
