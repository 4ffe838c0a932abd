use vstd::prelude::*;
use vstd::string::StringSliceAdditionalSpecFns;
use crate::buffer::{all_in_range, extend_samples, in_range, Buffer, MAX_SAMPLES};
use crate::error::Error;
use crate::fade::fade;
use crate::gain::{AMP_0DB, AMP_NEG30DB};
use crate::pick::pick_with_rng;
use crate::rng::rng_from_entropy;
use crate::time::Time;

verus! {

/// The pattern byte that stands for silence.
pub const SILENCE_SYMBOL: u8 = 95;

/// Whether a pattern holds at least one segment symbol (any byte other
/// than the silence mark).
pub open spec fn spec_has_symbol(pat: Seq<u8>) -> bool {
    exists|p: int| 0 <= p < pat.len() && pat[p] != SILENCE_SYMBOL
}

/// Builds a buffer from a symbolic pattern: the silence mark appends a
/// fixed-length silence; any other byte appends a segment picked at random
/// from the source on its first occurrence (softened by a fade-out) and
/// reused verbatim on every later occurrence.  Every emitted segment spans
/// exactly the resolved segment length, so occurrences of one symbol are
/// sample-identical.
pub fn mosaic_with_rng(
    a: &Buffer,
    rng: &mut rand::rngs::StdRng,
    pattern: &str,
    segment_len: &Time,
) -> (r: Result<Buffer, Error>)
    requires
        a.wf(),
        segment_len.wf(),
    ensures
        ({
            let nf = segment_len.spec_frames(a.spec_frames(), a.fmt.sample_rate as int);
            let ss = nf * (a.fmt.channels as int);
            let pat = pattern.spec_bytes();
            match r {
                Ok(out) => {
                    &&& out.wf()
                    &&& out.fmt == a.fmt
                    &&& out.samples@.len() == pat.len() * ss
                    &&& out.spec_frames() == pat.len() * nf
                    &&& (spec_has_symbol(pat) ==> nf <= a.spec_frames() && a.spec_frames()
                        >= 1)
                    &&& forall|i: int, j: int|
                        0 <= i < pat.len() && 0 <= j < pat.len() && pat[i] == pat[j]
                            ==> out.samples@.subrange(#[trigger] (i * ss), i * ss + ss)
                            == out.samples@.subrange(#[trigger] (j * ss), j * ss + ss)
                    &&& forall|i: int, t: int|
                        0 <= i < pat.len() && pat[i] == SILENCE_SYMBOL && 0 <= t < ss
                            ==> out.samples@[#[trigger] (i * ss + t)] == 0
                },
                Err(e) => {
                    &&& (e == Error::InvalidParameter || e == Error::OutOfRange)
                    &&& (e == Error::InvalidParameter <==> pat.len() * ss > MAX_SAMPLES)
                    &&& (e == Error::OutOfRange <==> pat.len() * ss <= MAX_SAMPLES
                        && spec_has_symbol(pat) && (nf > a.spec_frames() || a.spec_frames()
                        == 0))
                },
            }
        }),
{
    let frames = a.frames() as u64;
    let rate = a.fmt.sample_rate as u64;
    let c = a.fmt.channels;
    proof {
        vstd::arithmetic::div_mod::lemma_div_nonincreasing(a.samples@.len() as int, c as int);
        vstd::arithmetic::div_mod::lemma_div_pos_is_pos(a.samples@.len() as int, c as int);
    }
    let nf = segment_len.resolve_frames(frames, rate);
    let pat = pattern.as_bytes();
    let plen = pat.len();
    if plen == 0 {
        proof {
            let ss = (nf as int) * (c as int);
            assert(0int * ss == 0) by (nonlinear_arith);
            vstd::arithmetic::div_mod::lemma_small_mod(0nat, c as nat);
            assert(Seq::<i64>::empty().len() as int / (c as int) == 0) by {
                vstd::arithmetic::div_mod::lemma_div_of0(c as int);
            }
        }
        return Ok(Buffer { samples: Vec::new(), fmt: a.fmt });
    }
    if nf > MAX_SAMPLES as u128 {
        proof {
            assert((nf as int) <= (nf as int) * (c as int) && (nf as int) * (c as int) <= (
            plen as int) * ((nf as int) * (c as int))) by (nonlinear_arith)
                requires
                    nf >= 0,
                    c >= 1,
                    plen >= 1,
            ;
        }
        return Err(Error::InvalidParameter);
    }
    proof {
        assert(0 <= (nf as int) * (c as int) <= (MAX_SAMPLES as int) * 0x10000int)
            by (nonlinear_arith)
            requires
                0 <= nf <= MAX_SAMPLES as u128,
                1 <= c <= 0x10000,
        ;
    }
    let ss_w: u128 = nf * (c as u128);
    if ss_w > MAX_SAMPLES as u128 {
        proof {
            assert((nf as int) * (c as int) <= (plen as int) * ((nf as int) * (c as int)))
                by (nonlinear_arith)
                requires
                    nf >= 0,
                    c >= 1,
                    plen >= 1,
            ;
        }
        return Err(Error::InvalidParameter);
    }
    proof {
        assert((plen as int) < 0x1_0000_0000_0000_0000int);
        if plen > 0 {
            assert((plen as int) * (ss_w as int) <= 0x1_0000_0000_0000_0000int * (
            MAX_SAMPLES as int)) by (nonlinear_arith)
                requires
                    0 < plen,
                    (plen as int) < 0x1_0000_0000_0000_0000int,
                    0 <= ss_w <= MAX_SAMPLES as u128,
            ;
        } else {
            assert((plen as int) * (ss_w as int) == 0) by (nonlinear_arith)
                requires
                    plen == 0,
            ;
        }
        assert((plen as int) * (ss_w as int) >= 0) by (nonlinear_arith)
            requires
                plen >= 0,
                ss_w >= 0,
        ;
    }
    let total_w: u128 = (plen as u128) * ss_w;
    if total_w > MAX_SAMPLES as u128 {
        return Err(Error::InvalidParameter);
    }
    proof {
        assert((nf as int) * (c as int) <= (plen as int) * ((nf as int) * (c as int))
            || plen == 0) by (nonlinear_arith)
            requires
                nf >= 0,
                c >= 1,
                plen >= 0,
        ;
    }
    let ghost ssg: int = (nf as int) * (c as int);
    let ghost silence_seq: Seq<i64> = Seq::new(ssg as nat, |t: int| 0i64);
    let mut out: Vec<i64> = Vec::new();
    let mut cache: Vec<(u8, Buffer)> = Vec::new();
    let ghost mut seg_map: Map<u8, Seq<i64>> = Map::empty();
    let mut k: usize = 0;
    while k < plen
        invariant
            a.wf(),
            segment_len.wf(),
            frames == a.spec_frames(),
            frames <= MAX_SAMPLES,
            rate == a.fmt.sample_rate,
            1 <= rate <= crate::buffer::MAX_RATE,
            c == a.fmt.channels,
            nf == segment_len.spec_frames(a.spec_frames(), a.fmt.sample_rate as int),
            pat@ == pattern.spec_bytes(),
            plen == pat@.len(),
            ssg == (nf as int) * (c as int),
            ss_w == ssg,
            silence_seq == Seq::new(ssg as nat, |t: int| 0i64),
            (plen as int) * ssg <= MAX_SAMPLES,
            plen == 0 || ssg <= (plen as int) * ssg,
            k <= plen,
            out@.len() == k * ssg,
            all_in_range(out@),
            forall|ix: int|
                0 <= ix < cache@.len() ==> {
                    let e = #[trigger] cache@[ix];
                    &&& seg_map.contains_key(e.0)
                    &&& seg_map[e.0] == e.1.samples@
                    &&& e.1.wf()
                    &&& e.1.fmt == a.fmt
                    &&& e.1.samples@.len() == ssg
                },
            forall|b: u8|
                seg_map.contains_key(b) ==> exists|ix: int|
                    0 <= ix < cache@.len() && (#[trigger] cache@[ix]).0 == b,
            cache@.len() > 0 ==> nf <= a.spec_frames() && a.spec_frames() >= 1,
            forall|p: int|
                0 <= p < k ==> out@.subrange(#[trigger] (p * ssg), p * ssg + ssg) == (
                if pat@[p] == SILENCE_SYMBOL {
                    silence_seq
                } else {
                    seg_map[pat@[p]]
                }),
            forall|p: int|
                0 <= p < k && pat@[p] != SILENCE_SYMBOL ==> seg_map.contains_key(
                    #[trigger] pat@[p],
                ),
        decreases plen - k,
    {
        proof {
            assert((k + 1) * ssg == k * ssg + ssg) by (nonlinear_arith);
            assert((k + 1) * ssg <= (plen as int) * ssg) by (nonlinear_arith)
                requires
                    k + 1 <= plen,
                    ssg >= 0,
            ;
        }
        let b = pat[k];
        if b == SILENCE_SYMBOL {
            let ghost pre = out@;
            let nz: usize = (ss_w as usize);
            let mut t: usize = 0;
            while t < nz
                invariant
                    nz == ssg,
                    t <= nz,
                    out@.len() == pre.len() + t,
                    out@ == pre + silence_seq.subrange(0, t as int),
                    silence_seq == Seq::new(ssg as nat, |t: int| 0i64),
                decreases nz - t,
            {
                out.push(0i64);
                proof {
                    assert((pre + silence_seq.subrange(0, t as int)).push(0i64) =~= pre
                        + silence_seq.subrange(0, t + 1));
                }
                t += 1;
            }
            proof {
                assert(silence_seq.subrange(0, nz as int) =~= silence_seq);
                assert(out@ == pre + silence_seq);
                lemma_prefix_segments(pre, silence_seq, ssg, k as int);
                assert(all_in_range(out@)) by {
                    assert(forall|j: int|
                        0 <= j < out@.len() ==> out@[j] == (if j < pre.len() {
                            pre[j]
                        } else {
                            silence_seq[j - pre.len()]
                        }));
                }
            }
        } else {
            let clen = cache.len();
            let mut pos_opt: usize = clen;
            let mut ix: usize = 0;
            while ix < clen
                invariant
                    clen == cache@.len(),
                    ix <= clen,
                    pos_opt == clen || (pos_opt < clen && cache@[pos_opt as int].0 == b),
                    pos_opt == clen ==> forall|q: int|
                        0 <= q < ix ==> (#[trigger] cache@[q]).0 != b,
                decreases clen - ix,
            {
                if pos_opt == clen && cache[ix].0 == b {
                    pos_opt = ix;
                }
                ix += 1;
            }
            if pos_opt == clen {
                let picked = match pick_with_rng(a, rng, segment_len) {
                    Ok(v) => v,
                    Err(e) => {
                        proof {
                            assert(spec_has_symbol(pattern.spec_bytes())) by {
                                assert(pat@[k as int] != SILENCE_SYMBOL);
                            }
                        }
                        return Err(e);
                    },
                };
                let softened = fade(&picked, AMP_0DB, AMP_NEG30DB);
                proof {
                    assert(softened.samples@.len() == ssg) by {
                        assert(picked.spec_frames() == nf);
                        vstd::arithmetic::div_mod::lemma_fundamental_div_mod(
                            picked.samples@.len() as int,
                            c as int,
                        );
                        assert((c as int) * (nf as int) == (nf as int) * (c as int))
                            by (nonlinear_arith);
                    }
                    assert(softened.wf()) by {
                        vstd::arithmetic::div_mod::lemma_mod_multiples_basic(
                            nf as int,
                            c as int,
                        );
                    }
                }
                let ghost pre_cache = cache@;
                cache.push((b, softened));
                proof {
                    seg_map = seg_map.insert(b, softened.samples@);
                    assert forall|ixq: int| 0 <= ixq < cache@.len() implies {
                        let e = #[trigger] cache@[ixq];
                        &&& seg_map.contains_key(e.0)
                        &&& seg_map[e.0] == e.1.samples@
                        &&& e.1.wf()
                        &&& e.1.fmt == a.fmt
                        &&& e.1.samples@.len() == ssg
                    } by {
                        if ixq < pre_cache.len() {
                            assert(cache@[ixq] == pre_cache[ixq]);
                        }
                    }
                    assert forall|bb: u8| seg_map.contains_key(bb) implies exists|ixq: int|
                        0 <= ixq < cache@.len() && (#[trigger] cache@[ixq]).0 == bb by {
                        if bb == b {
                            assert(cache@[cache@.len() - 1].0 == bb);
                        } else {
                            let w = choose|w: int|
                                0 <= w < pre_cache.len() && (#[trigger] pre_cache[w]).0 == bb;
                            assert(cache@[w].0 == bb);
                        }
                    }
                }
            }
            let pos: usize = if pos_opt < clen {
                pos_opt
            } else {
                cache.len() - 1
            };
            let ghost pre = out@;
            let seg = &cache[pos].1;
            extend_samples(&mut out, &seg.samples);
            proof {
                lemma_prefix_segments(pre, seg.samples@, ssg, k as int);
                assert(all_in_range(out@)) by {
                    assert(forall|j: int|
                        0 <= j < out@.len() ==> out@[j] == (if j < pre.len() {
                            pre[j]
                        } else {
                            seg.samples@[j - pre.len()]
                        }));
                }
            }
        }
        k += 1;
    }
    proof {
        assert(out@.len() == (plen as int) * ssg);
        lemma_times_div_mod(plen as int, nf as int, c as int);
        assert forall|i: int, t: int|
            0 <= i < plen && pat@[i] == SILENCE_SYMBOL && 0 <= t < ssg implies out@[#[trigger] (
        i * ssg + t)] == 0 by {
            assert((i + 1) * ssg <= (plen as int) * ssg && 0 <= i * ssg && i * ssg + ssg == (i
                + 1) * ssg) by (nonlinear_arith)
                requires
                    0 <= i,
                    i + 1 <= plen,
                    ssg >= 0,
            ;
            assert(out@.subrange(i * ssg, i * ssg + ssg) == silence_seq);
            assert(out@.subrange(i * ssg, i * ssg + ssg)[t] == out@[i * ssg + t]);
            assert(silence_seq[t] == 0i64);
        }
    }
    Ok(Buffer { samples: out, fmt: a.fmt })
}

/// Appending one segment of length ss to a vector of k segments leaves the
/// first k segment slices unchanged and makes the new slice the segment.
proof fn lemma_prefix_segments(pre: Seq<i64>, seg: Seq<i64>, ss: int, k: int)
    requires
        ss >= 0,
        k >= 0,
        pre.len() == k * ss,
        seg.len() == ss,
    ensures
        forall|p: int|
            0 <= p < k ==> (pre + seg).subrange(#[trigger] (p * ss), p * ss + ss)
                == pre.subrange(p * ss, p * ss + ss),
        (pre + seg).subrange(k * ss, k * ss + ss) == seg,
{
    assert forall|p: int| 0 <= p < k implies (pre + seg).subrange(
        #[trigger] (p * ss),
        p * ss + ss,
    ) == pre.subrange(p * ss, p * ss + ss) by {
        assert((p + 1) * ss <= k * ss && p * ss >= 0) by (nonlinear_arith)
            requires
                0 <= p,
                p + 1 <= k,
                ss >= 0,
        ;
        assert(p * ss + ss == (p + 1) * ss) by (nonlinear_arith);
        assert((pre + seg).subrange(p * ss, p * ss + ss) =~= pre.subrange(p * ss, p * ss + ss));
    }
    assert((pre + seg).subrange(k * ss, k * ss + ss) =~= seg);
}

/// (p * n) * c  is divisible by c, with quotient p * n.
proof fn lemma_times_div_mod(p: int, n: int, c: int)
    requires
        p >= 0,
        n >= 0,
        c >= 1,
    ensures
        (p * (n * c)) % c == 0,
        (p * (n * c)) / c == p * n,
{
    assert(p * (n * c) == (p * n) * c) by (nonlinear_arith);
    vstd::arithmetic::div_mod::lemma_mod_multiples_basic(p * n, c);
    vstd::arithmetic::div_mod::lemma_div_multiples_vanish(p * n, c);
    assert(c * (p * n) == (p * n) * c) by (nonlinear_arith);
}

/// Like mosaic_with_rng, drawing from a fresh system-seeded generator.
pub fn mosaic(a: &Buffer, pattern: &str, segment_len: &Time) -> (r: Result<Buffer, Error>)
    requires
        a.wf(),
        segment_len.wf(),
    ensures
        ({
            let nf = segment_len.spec_frames(a.spec_frames(), a.fmt.sample_rate as int);
            let ss = nf * (a.fmt.channels as int);
            let pat = pattern.spec_bytes();
            match r {
                Ok(out) => {
                    &&& out.wf()
                    &&& out.fmt == a.fmt
                    &&& out.spec_frames() == pat.len() * nf
                },
                Err(e) => {
                    &&& (e == Error::InvalidParameter <==> pat.len() * ss > MAX_SAMPLES)
                    &&& (e == Error::OutOfRange <==> pat.len() * ss <= MAX_SAMPLES
                        && spec_has_symbol(pat) && (nf > a.spec_frames() || a.spec_frames()
                        == 0))
                },
            }
        }),
{
    let mut rng = rng_from_entropy();
    mosaic_with_rng(a, &mut rng, pattern, segment_len)
}

} // verus!
