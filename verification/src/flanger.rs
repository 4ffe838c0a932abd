use vstd::prelude::*;
use crate::buffer::{Buffer, SCALE};
use crate::error::Error;
use crate::sample::abs_i;
use vstd::arithmetic::div_mod::{
    lemma_div_is_ordered,
    lemma_div_multiples_vanish,
    lemma_div_pos_is_pos,
    lemma_mod_bound,
};

verus! {

/// The longest combined delay and depth flanger accepts, in microseconds.
pub const MAX_FLANGER_US: u64 = 10_000_000;

/// A quarter-wave rational approximation of the sine, on a phase given in
/// 1/2^32 of a cycle, in fixed point: 16 v / (5 H^2 - 4 v) with
/// v = p (H - p) on each half-cycle, never above one unit in magnitude.
pub fn sine_q16(phase: u32) -> (r: i64)
    ensures
        -SCALE <= r <= SCALE,
{
    let half: u64 = 0x8000;
    proof {
        vstd::arithmetic::div_mod::lemma_multiply_divide_lt(phase as int, 65536, 65536);
        vstd::arithmetic::div_mod::lemma_div_pos_is_pos(phase as int, 65536);
    }
    // fold the 32-bit phase onto a half-cycle of 2^15 steps
    let p_full: u64 = ((phase / 65536) as u64) % (2 * half);
    proof {
        lemma_mod_bound(((phase / 65536) as u64) as int, (2 * half) as int);
    }
    let neg = p_full >= half;
    let p: u64 = if neg {
        p_full - half
    } else {
        p_full
    };
    proof {
        let h = half as int;
        assert(4 * ((p as int) * (h - p as int)) <= h * h && 0 <= (p as int) * (h
            - p as int) && (p as int) * (h - p as int) <= h * h) by (nonlinear_arith)
            requires
                0 <= p < h,
        ;
    }
    let v: u64 = p * (half - p);
    proof {
        let h = half as int;
        let sc = SCALE as int;
        assert(16 * (v as int) * sc <= sc * (5 * h * h - 4 * (v as int))) by (nonlinear_arith)
            requires
                0 <= 4 * (v as int) <= h * h,
                sc >= 1,
        ;
    }
    let num: u64 = 16 * v * (SCALE as u64);
    let den: u64 = 5 * half * half - 4 * v;
    proof {
        lemma_div_pos_is_pos(num as int, den as int);
        lemma_div_is_ordered(num as int, (SCALE as int) * (den as int), den as int);
        lemma_div_multiples_vanish(SCALE as int, den as int);
        assert((SCALE as int) * (den as int) == (den as int) * (SCALE as int))
            by (nonlinear_arith);
    }
    let q: u64 = num / den;
    if neg {
        -(q as i64)
    } else {
        q as i64
    }
}

/// Interpolates between two delay-line values, which may carry up to one
/// squared unit of feedback build-up.
fn interp_wide(s0: i64, s1: i64, frac: u64) -> (r: i64)
    requires
        abs_i(s0 as int) <= (SCALE as int) * (SCALE as int),
        abs_i(s1 as int) <= (SCALE as int) * (SCALE as int),
        frac <= SCALE as u64,
    ensures
        abs_i(r as int) <= (SCALE as int) * (SCALE as int),
{
    proof {
        let sc = SCALE as int;
        let b = sc * sc;
        assert(abs_i((s0 as int) * (sc - frac as int)) <= b * sc && abs_i((s1 as int) * (
        frac as int)) <= b * sc && abs_i((s0 as int) * (sc - frac as int) + (s1 as int) * (
        frac as int)) <= b * sc) by (nonlinear_arith)
            requires
                abs_i(s0 as int) <= b,
                abs_i(s1 as int) <= b,
                0 <= frac <= sc,
                b == sc * sc,
        ;
    }
    let w0: i128 = (s0 as i128) * ((SCALE as u64 - frac) as i128);
    let w1: i128 = (s1 as i128) * (frac as i128);
    let n: i128 = w0 + w1;
    proof {
        let sc = SCALE as int;
        let b = sc * sc;
        crate::sample::lemma_trunc_div_bound(n as int, sc, b);
    }
    let neg = n < 0;
    let mag: u128 = if neg {
        (-n) as u128
    } else {
        n as u128
    };
    let q: u128 = mag / (SCALE as u128);
    if neg {
        -(q as i64)
    } else {
        q as i64
    }
}

/// A swept comb filter: each sample is summed with a delayed copy read at
/// a position modulated by a low-frequency oscillator, with optional
/// feedback into the delay line, and hard-clipped into range.
pub fn flanger(
    a: &Buffer,
    delay_us: u64,
    depth_us: u64,
    rate_mhz: u64,
    feedback: i64,
) -> (r: Result<Buffer, Error>)
    requires
        a.wf(),
        delay_us + depth_us <= MAX_FLANGER_US,
        -SCALE < feedback < SCALE,
    ensures
        match r {
            Ok(out) => {
                &&& out.wf()
                &&& out.fmt == a.fmt
                &&& out.samples@.len() == a.samples@.len()
            },
            Err(_) => false,
        },
{
    let sc = SCALE as u64;
    let rate = a.fmt.sample_rate as u64;
    proof {
        assert(0 <= ((delay_us + depth_us) as int) * (rate as int) <= 10_000_000int
            * 0x100000int) by (nonlinear_arith)
            requires
                delay_us + depth_us <= 10_000_000u64,
                0 <= rate <= 0x100000,
        ;
    }
    let span: u64 = ((delay_us + depth_us) * rate) / 1_000_000;
    proof {
        lemma_div_pos_is_pos(((delay_us + depth_us) as int) * (rate as int), 1_000_000);
        lemma_div_is_ordered(
            ((delay_us + depth_us) as int) * (rate as int),
            10_000_000int * 0x100000int,
            1_000_000,
        );
    }
    let m: u64 = if span == 0 {
        1
    } else {
        span
    };
    // the phase increment per sample, in 1/2^32 of a cycle
    let inc_w: u128 = ((rate_mhz as u128) * 0x1_0000_0000u128) / ((1000 * rate) as u128);
    let inc: u64 = (inc_w % 0x1_0000_0000u128) as u64;
    let mut line: Vec<i64> = Vec::new();
    let mut t: usize = 0;
    let msize = m as usize;
    while t < msize
        invariant
            t <= msize,
            line@.len() == t,
            forall|j: int|
                0 <= j < t ==> abs_i(#[trigger] line@[j] as int) <= (SCALE as int) * (
                SCALE as int),
        decreases msize - t,
    {
        line.push(0i64);
        t += 1;
    }
    let n = a.samples.len();
    let mut out: Vec<i64> = Vec::new();
    let mut write: usize = 0;
    let mut phase: u64 = 0;
    let mut i: usize = 0;
    while i < n
        invariant
            a.wf(),
            n == a.samples@.len(),
            i <= n,
            msize == m,
            1 <= m <= 0x1_0000_0000u64,
            sc == SCALE as u64,
            delay_us + depth_us <= MAX_FLANGER_US,
            rate == a.fmt.sample_rate,
            -SCALE < feedback < SCALE,
            line@.len() == msize,
            write < msize,
            phase < 0x1_0000_0000u64,
            inc < 0x1_0000_0000u64,
            forall|j: int|
                0 <= j < msize ==> abs_i(#[trigger] line@[j] as int) <= (SCALE as int) * (
                SCALE as int),
            out@.len() == i,
            crate::buffer::all_in_range(out@),
        decreases n - i,
    {
        let x = a.samples[i];
        let s = sine_q16(phase as u32);
        // modulated delay in microseconds, fixed point
        proof {
            assert(0 <= (delay_us as int) * (sc as int) <= 10_000_000int * 0x10000int)
                by (nonlinear_arith)
                requires
                    0 <= delay_us <= 10_000_000u64,
                    sc == 0x10000u64,
            ;
            assert(0 <= (depth_us as int) * ((((s + SCALE) as u64) / 2) as int)
                <= 10_000_000int * 0x10000int) by (nonlinear_arith)
                requires
                    0 <= depth_us <= 10_000_000u64,
                    0 <= ((s + SCALE) as u64) / 2 <= 0x10000u64,
            ;
        }
        let mod_us_q16: u64 = delay_us * sc + (depth_us * (((s + SCALE) as u64) / 2));
        proof {
            assert((delay_us as int) * (sc as int) + (depth_us as int) * (SCALE as int)
                <= 10_000_000int * 0x10000int + 10_000_000int * 0x10000int)
                by (nonlinear_arith)
                requires
                    delay_us + depth_us <= 10_000_000u64,
                    sc == 0x10000u64,
                    SCALE == 0x10000i64,
            ;
            assert((depth_us as int) * ((((s + SCALE) as u64) / 2) as int) <= (
            depth_us as int) * (SCALE as int)) by (nonlinear_arith)
                requires
                    0 <= ((s + SCALE) as u64) / 2 <= SCALE as u64,
                    depth_us >= 0,
            ;
            assert((delay_us as int) * (sc as int) >= 0 && (depth_us as int) * ((((s
                + SCALE) as u64) / 2) as int) >= 0) by (nonlinear_arith)
                requires
                    delay_us >= 0,
                    depth_us >= 0,
                    0 <= ((s + SCALE) as u64) / 2,
            ;
        }
        // in samples, fixed point, wrapped onto the line length
        proof {
            assert(0 <= (mod_us_q16 as int) * (rate as int) <= 0xffff_ffff_ffff_ffffint
                * 0x100000int) by (nonlinear_arith)
                requires
                    0 <= mod_us_q16 <= 0xffff_ffff_ffff_ffffu64,
                    0 <= rate <= 0x100000,
            ;
        }
        let mod_q16_w: u128 = ((mod_us_q16 as u128) * (rate as u128)) / 1_000_000u128;
        let ring: u128 = (m as u128) * (sc as u128);
        proof {
            assert((m as int) * (sc as int) >= 1) by (nonlinear_arith)
                requires
                    m >= 1,
                    sc >= 1,
            ;
        }
        let mod_wrapped: u128 = mod_q16_w % ring;
        let write_q16: u128 = (write as u128) * (sc as u128);
        let rp: u128 = (write_q16 + ring - mod_wrapped) % ring;
        proof {
            lemma_mod_bound(mod_q16_w as int, ring as int);
            lemma_mod_bound((write_q16 + ring - mod_wrapped) as int, ring as int);
            assert((write as int) * (sc as int) <= ((msize as int) - 1) * (sc as int))
                by (nonlinear_arith)
                requires
                    write as int <= (msize as int) - 1,
                    sc >= 1,
            ;
        }
        let ip: usize = (rp / (sc as u128)) as usize;
        let frac: u64 = (rp % (sc as u128)) as u64;
        proof {
            let rpi = rp as int;
            let sci = sc as int;
            let mi = msize as int;
            vstd::arithmetic::div_mod::lemma_fundamental_div_mod(rpi, sci);
            assert(rpi / sci < mi) by (nonlinear_arith)
                requires
                    0 <= rpi < mi * sci,
                    sci >= 1,
                    rpi == sci * (rpi / sci) + rpi % sci,
                    0 <= rpi % sci < sci,
                    rpi / sci >= 0,
            ;
            lemma_div_pos_is_pos(rpi, sci);
            lemma_mod_bound(rpi, sci);
        }
        let s0 = line[ip];
        let ip2: usize = if ip + 1 < msize {
            ip + 1
        } else {
            0
        };
        let s1 = line[ip2];
        let delayed = interp_wide(s0, s1, frac);
        // feedback portion of the delayed sample
        let fneg = feedback < 0;
        let fmag: u64 = if fneg {
            (-feedback) as u64
        } else {
            feedback as u64
        };
        let dneg = delayed < 0;
        let dmag: u64 = if dneg {
            (-delayed) as u64
        } else {
            delayed as u64
        };
        proof {
            let sci = SCALE as int;
            assert((dmag as int) * (fmag as int) <= (sci * sci) * (sci - 1))
                by (nonlinear_arith)
                requires
                    0 <= dmag <= sci * sci,
                    0 <= fmag <= sci - 1,
            ;
            assert(((sci * sci) * (sci - 1)) / sci <= sci * sci * sci) by {
                vstd::arithmetic::div_mod::lemma_div_nonincreasing(
                    (sci * sci) * (sci - 1),
                    sci,
                );
                assert((sci * sci) * (sci - 1) <= sci * sci * sci) by (nonlinear_arith);
            }
            lemma_div_pos_is_pos((dmag as int) * (fmag as int), SCALE as int);
            lemma_div_is_ordered(
                (dmag as int) * (fmag as int),
                ((SCALE as int) * (SCALE as int)) * ((SCALE as int) - 1),
                SCALE as int,
            );
            // (S^2 (S-1)) / S == S (S-1)
            assert(((SCALE as int) * (SCALE as int)) * ((SCALE as int) - 1) == (
            SCALE as int) * ((SCALE as int) * ((SCALE as int) - 1))) by (nonlinear_arith);
            lemma_div_multiples_vanish(
                (SCALE as int) * ((SCALE as int) - 1),
                SCALE as int,
            );
        }
        let fpart_mag: u64 = (dmag * fmag) / (SCALE as u64);
        let same_sign = fneg == dneg;
        let fpart: i64 = if same_sign {
            fpart_mag as i64
        } else {
            -(fpart_mag as i64)
        };
        // write back into the line: input plus feedback
        let wv: i64 = x + fpart;
        proof {
            let sci = SCALE as int;
            assert(sci + sci * (sci - 1) == sci * sci) by (nonlinear_arith);
        }
        line.set(write, wv);
        // the output: input plus delayed plus feedback, clipped hard
        let mut v: i64 = x + delayed + fpart;
        if v > SCALE {
            v = SCALE;
        }
        if v < -SCALE {
            v = -SCALE;
        }
        out.push(v);
        write = if write + 1 < msize {
            write + 1
        } else {
            0
        };
        let next_phase = (phase + inc) % 0x1_0000_0000u64;
        proof {
            lemma_mod_bound((phase + inc) as int, 0x1_0000_0000int);
        }
        phase = next_phase;
        i += 1;
    }
    Ok(Buffer { samples: out, fmt: a.fmt })
}

} // verus!
