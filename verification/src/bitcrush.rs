use vstd::prelude::*;
use crate::buffer::{Buffer, SCALE};
use crate::error::Error;
use crate::speed::resample;
use vstd::arithmetic::div_mod::{lemma_div_multiples_vanish, lemma_fundamental_div_mod};

verus! {

/// The largest semitone shift bitcrush accepts.
pub const MAX_SEMITONES: u32 = 240;

/// 2^(j/12) in fixed point, for j from 0 to 11.
pub fn semitone_factor(j: u32) -> (r: u64)
    requires
        j < 12,
    ensures
        (SCALE as u64) <= r <= 2 * (SCALE as u64),
{
    if j == 0 {
        65536
    } else if j == 1 {
        69433
    } else if j == 2 {
        73562
    } else if j == 3 {
        77936
    } else if j == 4 {
        82570
    } else if j == 5 {
        87480
    } else if j == 6 {
        92682
    } else if j == 7 {
        98193
    } else if j == 8 {
        104032
    } else if j == 9 {
        110218
    } else if j == 10 {
        116772
    } else {
        123715
    }
}

/// The pitch-driven stutter: resamples the buffer up by 2^((semitones+24)/12)
/// (shrinking it), then stretches the shorter result back over the original
/// sample count, producing the characteristic repetition artifacts of the
/// two mismatched passes.
pub fn bitcrush(a: &Buffer, semitones: u32) -> (r: Result<Buffer, Error>)
    requires
        a.wf(),
    ensures
        match r {
            Ok(out) => {
                &&& semitones <= MAX_SEMITONES
                &&& out.wf()
                &&& out.fmt == a.fmt
                &&& out.samples@.len() == a.samples@.len()
            },
            Err(e) => e == Error::InvalidParameter && semitones > MAX_SEMITONES,
        },
{
    if semitones > MAX_SEMITONES {
        return Err(Error::InvalidParameter);
    }
    let st = semitones + 24;
    let oct = st / 12;
    let part = st % 12;
    proof {
        vstd::arithmetic::div_mod::lemma_mod_bound(st as int, 12);
        vstd::arithmetic::div_mod::lemma_div_nonincreasing(st as int, 12);
        vstd::arithmetic::div_mod::lemma_div_pos_is_pos(st as int, 12);
    }
    let base = semitone_factor(part);
    proof {
        assert(oct <= 22);
    }
    // factor = 2^oct * 2^(part/12), as a fixed-point numerator over SCALE:
    // doubled once per whole octave
    let mut num: u64 = base;
    let mut k: u32 = 0;
    proof {
        vstd::arithmetic::power2::lemma2_to64();
        assert(2 * (SCALE as int) * vstd::arithmetic::power2::pow2(0) == 2 * (SCALE as int))
            by (nonlinear_arith)
            requires
                vstd::arithmetic::power2::pow2(0) == 1,
        ;
    }
    while k < oct
        invariant
            oct <= 22,
            k <= oct,
            (SCALE as u64) <= num,
            num as int <= 2 * (SCALE as int) * vstd::arithmetic::power2::pow2(k as nat),
        decreases oct - k,
    {
        proof {
            vstd::arithmetic::power2::lemma2_to64();
            if (k as nat) < 22 {
                vstd::arithmetic::power2::lemma_pow2_strictly_increases(k as nat, 22);
            }
            vstd::arithmetic::power2::lemma_pow2_pos(k as nat);
            assert(2 * (SCALE as int) * vstd::arithmetic::power2::pow2(k as nat) <= 2 * (
            SCALE as int) * vstd::arithmetic::power2::pow2(22)) by (nonlinear_arith)
                requires
                    vstd::arithmetic::power2::pow2(k as nat) <= vstd::arithmetic::power2::pow2(
                        22,
                    ),
            ;
            assert(vstd::arithmetic::power2::pow2(k as nat + 1) == 2
                * vstd::arithmetic::power2::pow2(k as nat)) by {
                vstd::arithmetic::power2::lemma_pow2_unfold(k as nat + 1);
            }
            assert(2 * (2 * (SCALE as int) * vstd::arithmetic::power2::pow2(k as nat)) == 2
                * (SCALE as int) * (2 * vstd::arithmetic::power2::pow2(k as nat)))
                by (nonlinear_arith);
        }
        num = num * 2;
        k += 1;
    }
    proof {
        vstd::arithmetic::power2::lemma2_to64();
        if (oct as nat) < 22 {
            vstd::arithmetic::power2::lemma_pow2_strictly_increases(oct as nat, 22);
        }
        assert(2 * (SCALE as int) * vstd::arithmetic::power2::pow2(oct as nat) <= 2 * (
        SCALE as int) * vstd::arithmetic::power2::pow2(22)) by (nonlinear_arith)
            requires
                vstd::arithmetic::power2::pow2(oct as nat) <= vstd::arithmetic::power2::pow2(22),
        ;
    }
    let c = a.fmt.channels;
    let frames = a.frames();
    proof {
        vstd::arithmetic::div_mod::lemma_div_nonincreasing(a.samples@.len() as int, c as int);
        vstd::arithmetic::div_mod::lemma_div_pos_is_pos(a.samples@.len() as int, c as int);
        lemma_fundamental_div_mod(a.samples@.len() as int, c as int);
        assert((frames as int) * (c as int) == a.samples@.len()) by (nonlinear_arith)
            requires
                a.samples@.len() as int == (c as int) * (frames as int) + a.samples@.len() as int
                    % (c as int),
                a.samples@.len() as int % (c as int) == 0,
        ;
    }
    // first pass: shrink by the pitch factor
    let wide: u128 = (frames as u128) * (SCALE as u128);
    let nf1_w: u128 = wide / (num as u128);
    proof {
        vstd::arithmetic::div_mod::lemma_div_pos_is_pos(wide as int, num as int);
        assert((frames as int) * (SCALE as int) <= (frames as int) * (num as int) && (
        num as int) * (frames as int) == (frames as int) * (num as int)) by (nonlinear_arith)
            requires
                SCALE as int <= num as int,
                frames >= 0,
        ;
        vstd::arithmetic::div_mod::lemma_div_is_ordered(
            wide as int,
            (frames as int) * (num as int),
            num as int,
        );
        lemma_div_multiples_vanish(frames as int, num as int);
        assert(nf1_w <= frames);
        let nfi = nf1_w as int;
        let ci = c as int;
        assert(nfi * ci <= (frames as int) * ci) by (nonlinear_arith)
            requires
                nfi <= frames as int,
                ci >= 1,
        ;
    }
    let nf1: usize = nf1_w as usize;
    let stage1 = resample(&a.samples, c, num as u128, SCALE as u128, nf1);
    // second pass: stretch the shorter result back over the original length
    let src_len = stage1.len();
    let target_len = frames * c;
    if src_len == target_len {
        proof {
            vstd::arithmetic::div_mod::lemma_mod_multiples_basic(frames as int, c as int);
        }
        return Ok(Buffer { samples: stage1, fmt: a.fmt });
    }
    if src_len == 0 {
        let mut zeros: Vec<i64> = Vec::new();
        let mut t: usize = 0;
        while t < target_len
            invariant
                t <= target_len,
                zeros@.len() == t,
                forall|j: int| 0 <= j < t ==> zeros@[j] == 0i64,
            decreases target_len - t,
        {
            zeros.push(0i64);
            t += 1;
        }
        proof {
            vstd::arithmetic::div_mod::lemma_mod_multiples_basic(frames as int, c as int);
        }
        return Ok(Buffer { samples: zeros, fmt: a.fmt });
    }
    proof {
        let s = src_len as int;
        let t = target_len as int;
        assert(0 <= s * t <= 0x40000000int * 0x40000000int) by (nonlinear_arith)
            requires
                0 <= s <= 0x40000000,
                0 <= t <= 0x40000000,
        ;
        lemma_div_multiples_vanish(t, s);
        assert(s * t == (s as int) * t && (s * t) / s == t) by {
            assert(s * t == t * s) by (nonlinear_arith);
        }
    }
    let stage2 = resample(&stage1, 1, src_len as u128, target_len as u128, target_len);
    proof {
        vstd::arithmetic::div_mod::lemma_mod_multiples_basic(frames as int, c as int);
    }
    Ok(Buffer { samples: stage2, fmt: a.fmt })
}

} // verus!
