use vstd::prelude::*;
use crate::buffer::Buffer;
use crate::cut::cut;
use crate::chop::chop;
use crate::error::Error;
use crate::fade::fade;
use crate::gain::{gain, AMP_0DB, AMP_NEG10DB, AMP_NEG5DB, AMP_NEG90DB, AMP_PLUS_001DB};
use crate::rat::Rat;
use crate::resize::resize;
use crate::rng::{rng_below, rng_coin, rng_range_incl};
use crate::speed::speed;
use crate::split::split;
use crate::time::Time;

verus! {

/// One of the fixed split counts the blender draws from.
fn draw_split_count(rng: &mut rand::rngs::StdRng) -> (r: usize)
    ensures
        r == 4 || r == 8 || r == 16 || r == 32,
{
    let k = rng_below(rng, 4);
    if k == 0 {
        4
    } else if k == 1 {
        8
    } else if k == 2 {
        16
    } else {
        32
    }
}

/// The first half of c, held essentially flat by a fade to a hair above
/// unity, or the tail half of the third first-source segment.
fn get_c_half(
    rng: &mut rand::rngs::StdRng,
    c: &Buffer,
    arr0: &Vec<Buffer>,
) -> (r: Result<Buffer, Error>)
    requires
        c.wf(),
        arr0@.len() >= 3,
        forall|k: int| 0 <= k < arr0@.len() ==> (#[trigger] arr0@[k]).wf(),
    ensures
        match r {
            Ok(out) => out.wf(),
            Err(e) => e != Error::UnknownBlender && e != Error::UnknownEffect && e
                != Error::EmptyInput,
        },
{
    let zero = Time::abs(0, 1);
    let half = Time::fract(1, 2);
    if rng_coin(rng, 1, 2) {
        let head = match cut(c, &zero, &half) {
            Ok(v) => v,
            Err(e) => {
                return Err(e);
            },
        };
        Ok(fade(&head, AMP_0DB, AMP_PLUS_001DB))
    } else {
        let one = Time::abs(1, 1);
        let tail = match cut(&arr0[2], &half, &one) {
            Ok(v) => v,
            Err(e) => {
                return Err(e);
            },
        };
        Ok(fade(&tail, AMP_0DB, AMP_PLUS_001DB))
    }
}

/// The first half of b, or the tail half of the second first-source segment.
fn get_b_half(
    rng: &mut rand::rngs::StdRng,
    b: &Buffer,
    arr0: &Vec<Buffer>,
) -> (r: Result<Buffer, Error>)
    requires
        b.wf(),
        arr0@.len() >= 2,
        forall|k: int| 0 <= k < arr0@.len() ==> (#[trigger] arr0@[k]).wf(),
    ensures
        match r {
            Ok(out) => out.wf(),
            Err(e) => e != Error::UnknownBlender && e != Error::UnknownEffect && e
                != Error::EmptyInput,
        },
{
    let zero = Time::abs(0, 1);
    let half = Time::fract(1, 2);
    if rng_coin(rng, 1, 2) {
        cut(b, &zero, &half)
    } else {
        let one = Time::abs(1, 1);
        cut(&arr0[1], &half, &one)
    }
}

/// Assembles one candidate track from the three prepared segments, through
/// a fixed ladder of coin flips choosing among gain reduction, speed
/// halving and chopping.
#[verifier::rlimit(100)]
fn mk(
    rng: &mut rand::rngs::StdRng,
    a: &Buffer,
    b: &Buffer,
    c: &Buffer,
    a_half: &Buffer,
    arr0: &Vec<Buffer>,
) -> (r: Result<Buffer, Error>)
    requires
        a.wf(),
        b.wf(),
        c.wf(),
        a_half.wf(),
        arr0@.len() >= 3,
        forall|k: int| 0 <= k < arr0@.len() ==> (#[trigger] arr0@[k]).wf(),
    ensures
        match r {
            Ok(out) => out.wf() && out.fmt == a.fmt && out.samples@.len()
                >= a.samples@.len(),
            Err(e) => e != Error::UnknownBlender && e != Error::UnknownEffect && e
                != Error::EmptyInput,
        },
{
    let mut s = a.dup();
    if rng_coin(rng, 1, 2) {
        s = match crate::add::add(&s, &gain(b, AMP_NEG5DB)) {
            Ok(v) => v,
            Err(e) => {
                return Err(e);
            },
        };
    } else {
        if rng_coin(rng, 1, 2) {
            s = match crate::add::add(&s, &gain(a, AMP_NEG5DB)) {
                Ok(v) => v,
                Err(e) => {
                    return Err(e);
                },
            };
        } else {
            let ghost pre = s;
            s = match speed(&s, &Rat { num: 1, den: 2 }) {
                Ok(v) => v,
                Err(e) => {
                    return Err(e);
                },
            };
            proof {
                // halving the speed doubles the frame count
                vstd::arithmetic::div_mod::lemma_div_basics(pre.spec_frames() * 2);
                crate::xfade::lemma_frames_samples(pre);
                crate::xfade::lemma_frames_samples(s);
                assert(s.samples@.len() >= pre.samples@.len()) by (nonlinear_arith)
                    requires
                        s.samples@.len() == (pre.spec_frames() * 2) * (
                        pre.fmt.channels as int),
                        pre.samples@.len() == pre.spec_frames() * (pre.fmt.channels as int),
                        pre.spec_frames() >= 0,
                        pre.fmt.channels >= 1,
                ;
            }
        }
    }
    s = match crate::add::add(&s, c) {
        Ok(v) => v,
        Err(e) => {
            return Err(e);
        },
    };
    let bh = match get_b_half(rng, b, arr0) {
        Ok(v) => v,
        Err(e) => {
            return Err(e);
        },
    };
    s = match crate::add::add(&s, &gain(&bh, AMP_NEG5DB)) {
        Ok(v) => v,
        Err(e) => {
            return Err(e);
        },
    };
    let ch1 = match get_c_half(rng, c, arr0) {
        Ok(v) => v,
        Err(e) => {
            return Err(e);
        },
    };
    if rng_coin(rng, 1, 2) {
        s = match crate::add::add(&s, &ch1) {
            Ok(v) => v,
            Err(e) => {
                return Err(e);
            },
        };
    } else {
        let chopped = match chop(&ch1, 8) {
            Ok(v) => v,
            Err(e) => {
                return Err(e);
            },
        };
        s = match crate::add::add(&s, &chopped) {
            Ok(v) => v,
            Err(e) => {
                return Err(e);
            },
        };
    }
    let bh2 = match get_b_half(rng, b, arr0) {
        Ok(v) => v,
        Err(e) => {
            return Err(e);
        },
    };
    s = match crate::add::add(&s, &bh2) {
        Ok(v) => v,
        Err(e) => {
            return Err(e);
        },
    };
    let ch2 = match get_c_half(rng, c, arr0) {
        Ok(v) => v,
        Err(e) => {
            return Err(e);
        },
    };
    s = match crate::add::add(&s, &ch2) {
        Ok(v) => v,
        Err(e) => {
            return Err(e);
        },
    };
    s = match crate::add::add(&s, a_half) {
        Ok(v) => v,
        Err(e) => {
            return Err(e);
        },
    };
    if rng_coin(rng, 1, 2) {
        let bh3 = match get_b_half(rng, b, arr0) {
            Ok(v) => v,
            Err(e) => {
                return Err(e);
            },
        };
        s = match crate::add::add(&s, &gain(&bh3, AMP_NEG5DB)) {
            Ok(v) => v,
            Err(e) => {
                return Err(e);
            },
        };
    } else {
        if rng_coin(rng, 1, 2) {
            let ch3 = match get_c_half(rng, c, arr0) {
                Ok(v) => v,
                Err(e) => {
                    return Err(e);
                },
            };
            s = match crate::add::add(&s, &gain(&ch3, AMP_NEG5DB)) {
                Ok(v) => v,
                Err(e) => {
                    return Err(e);
                },
            };
        } else {
            let ch3 = match get_c_half(rng, c, arr0) {
                Ok(v) => v,
                Err(e) => {
                    return Err(e);
                },
            };
            let chopped = match chop(&ch3, 2) {
                Ok(v) => v,
                Err(e) => {
                    return Err(e);
                },
            };
            s = match crate::add::add(&s, &gain(&chopped, AMP_NEG5DB)) {
                Ok(v) => v,
                Err(e) => {
                    return Err(e);
                },
            };
        }
    }
    s = match crate::add::add(&s, c) {
        Ok(v) => v,
        Err(e) => {
            return Err(e);
        },
    };
    if rng_coin(rng, 1, 2) {
        s = match crate::add::add(&s, &gain(b, AMP_NEG10DB)) {
            Ok(v) => v,
            Err(e) => {
                return Err(e);
            },
        };
    } else {
        if rng_coin(rng, 1, 2) {
            s = match crate::add::add(&s, &gain(a, AMP_NEG10DB)) {
                Ok(v) => v,
                Err(e) => {
                    return Err(e);
                },
            };
        } else {
            let chopped = match chop(b, 8) {
                Ok(v) => v,
                Err(e) => {
                    return Err(e);
                },
            };
            s = match crate::add::add(&s, &gain(&chopped, AMP_NEG10DB)) {
                Ok(v) => v,
                Err(e) => {
                    return Err(e);
                },
            };
        }
    }
    Ok(s)
}

/// The multi-segment recomposition blender: slices the first quarter of
/// three inputs, duration-matches one segment of each, builds three
/// candidate tracks through the mk ladder, softens the tail of two of
/// them, concatenates everything and resizes the result to a drawn
/// duration between 12 and 16 seconds.
#[verifier::rlimit(100)]
pub fn outbreaker(wavs: &Vec<Buffer>, rng: &mut rand::rngs::StdRng) -> (r: Result<
    Buffer,
    Error,
>)
    requires
        forall|k: int| 0 <= k < wavs@.len() ==> (#[trigger] wavs@[k]).wf(),
    ensures
        match r {
            Ok(out) => {
                &&& out.wf()
                &&& wavs@.len() >= 3
                &&& out.fmt == wavs@[0].fmt
                &&& wavs@[0].spec_frames() >= 1
                &&& wavs@[1].spec_frames() >= 1
                &&& wavs@[2].spec_frames() >= 1
                // the final resample lands on a drawn duration between
                // twelve and sixteen seconds, within one frame
                &&& out.spec_frames() * 1000 <= (wavs@[0].fmt.sample_rate as int) * 16000
                &&& (wavs@[0].fmt.sample_rate as int) * 12000 < (out.spec_frames() + 1)
                    * 1000
            },
            Err(e) => {
                &&& e != Error::UnknownBlender && e != Error::UnknownEffect
                &&& (e == Error::EmptyInput <==> wavs@.len() < 3)
            },
        },
{
    if wavs.len() < 3 {
        return Err(Error::EmptyInput);
    }
    let zero = Time::abs(0, 1);
    let quarter = Time::fract(1, 4);
    let s1_cut = match cut(&wavs[0], &zero, &quarter) {
        Ok(v) => v,
        Err(e) => {
            return Err(e);
        },
    };
    proof {
        crate::xfade::lemma_zero_start(wavs@[0]);
    }
    let n0 = draw_split_count(rng);
    let arr0 = match split(&s1_cut, n0) {
        Ok(v) => v,
        Err(e) => {
            return Err(e);
        },
    };
    let a = arr0[0].dup();
    let s2_cut = match cut(&wavs[1], &zero, &quarter) {
        Ok(v) => v,
        Err(e) => {
            return Err(e);
        },
    };
    proof {
        crate::xfade::lemma_zero_start(wavs@[1]);
    }
    let n1 = draw_split_count(rng);
    let arr1 = match split(&s2_cut, n1) {
        Ok(v) => v,
        Err(e) => {
            return Err(e);
        },
    };
    let a_len = crate::len::len(&a);
    let b = match resize(&arr1[1], &a_len) {
        Ok(v) => v,
        Err(e) => {
            return Err(e);
        },
    };
    let s3_cut = match cut(&wavs[2], &zero, &quarter) {
        Ok(v) => v,
        Err(e) => {
            return Err(e);
        },
    };
    proof {
        crate::xfade::lemma_zero_start(wavs@[2]);
    }
    let n2 = draw_split_count(rng);
    let arr2 = match split(&s3_cut, n2) {
        Ok(v) => v,
        Err(e) => {
            return Err(e);
        },
    };
    let c = match resize(&arr2[2], &a_len) {
        Ok(v) => v,
        Err(e) => {
            return Err(e);
        },
    };
    let half = Time::fract(1, 2);
    let a_head = match cut(&a, &zero, &half) {
        Ok(v) => v,
        Err(e) => {
            return Err(e);
        },
    };
    let a_half = fade(&a_head, AMP_0DB, AMP_PLUS_001DB);
    let s1_mk = match mk(rng, &a, &b, &c, &a_half, &arr0) {
        Ok(v) => v,
        Err(e) => {
            return Err(e);
        },
    };
    let mut s2_mk = match mk(rng, &a, &b, &c, &a_half, &arr0) {
        Ok(v) => v,
        Err(e) => {
            return Err(e);
        },
    };
    let mut s3_mk = match mk(rng, &a, &b, &c, &a_half, &arr0) {
        Ok(v) => v,
        Err(e) => {
            return Err(e);
        },
    };
    if rng_coin(rng, 1, 2) {
        s2_mk = match soften_tail(&s2_mk, 15, 16) {
            Ok(v) => v,
            Err(e) => {
                return Err(e);
            },
        };
    }
    s3_mk = match soften_tail(&s3_mk, 14, 16) {
        Ok(v) => v,
        Err(e) => {
            return Err(e);
        },
    };
    let f1 = match crate::add::add(&s1_mk, &s2_mk) {
        Ok(v) => v,
        Err(e) => {
            return Err(e);
        },
    };
    let f2 = match crate::add::add(&f1, &s1_mk) {
        Ok(v) => v,
        Err(e) => {
            return Err(e);
        },
    };
    let f3 = match crate::add::add(&f2, &s3_mk) {
        Ok(v) => v,
        Err(e) => {
            return Err(e);
        },
    };
    proof {
        // the assembled track is never empty: the first candidate holds at
        // least the first segment, and each concatenation only grows
        crate::xfade::lemma_frames_samples(a);
        crate::xfade::lemma_frames_samples(f3);
        assert(a.samples@.len() >= a.fmt.channels as int) by (nonlinear_arith)
            requires
                a.samples@.len() == a.spec_frames() * (a.fmt.channels as int),
                a.spec_frames() >= 1,
        ;
        assert(f3.spec_frames() >= 1) by (nonlinear_arith)
            requires
                f3.samples@.len() == f3.spec_frames() * (f3.fmt.channels as int),
                f3.samples@.len() >= 1,
                f3.fmt.channels >= 1,
                f3.spec_frames() >= 0,
        ;
    }
    let final_ms = rng_range_incl(rng, 12000, 16000);
    match resize(&f3, &Rat { num: final_ms, den: 1000 }) {
        Ok(out) => {
            proof {
                crate::laws::lemma_resize_duration(
                    f3,
                    Rat { num: final_ms, den: 1000 },
                    out,
                );
                let rt = f3.fmt.sample_rate as int;
                assert(rt * (final_ms as int) <= rt * 16000 && rt * 12000 <= rt * (
                final_ms as int)) by (nonlinear_arith)
                    requires
                        12000 <= final_ms <= 16000,
                        rt >= 1,
                ;
            }
            Ok(out)
        },
        Err(e) => Err(e),
    }
}

/// Splits a track at main_n / den of its length and attenuates the tail
/// to near silence before putting the two back together.
fn soften_tail(t: &Buffer, main_n: u64, den: u64) -> (r: Result<Buffer, Error>)
    requires
        t.wf(),
        1 <= main_n < den,
        den <= 0x10000,
    ensures
        match r {
            Ok(out) => out.wf() && out.fmt == t.fmt,
            Err(e) => e != Error::UnknownBlender && e != Error::UnknownEffect && e
                != Error::EmptyInput,
        },
{
    let zero = Time::abs(0, 1);
    let main_t = Time::fract(main_n, den);
    let start_t = Time::fract(main_n, den);
    let part_t = Time::fract(den - main_n, den);
    let main_part = match cut(t, &zero, &main_t) {
        Ok(v) => v,
        Err(e) => {
            return Err(e);
        },
    };
    let tail = match cut(t, &start_t, &part_t) {
        Ok(v) => v,
        Err(e) => {
            return Err(e);
        },
    };
    let soft = gain(&tail, AMP_NEG90DB);
    match crate::add::add(&main_part, &soft) {
        Ok(v) => Ok(v),
        Err(e) => Err(e),
    }
}

} // verus!
