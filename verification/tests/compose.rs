use rand::rngs::StdRng;
use rand::SeedableRng;
use w4v::time::Time;
use w4v::{Buffer, Error, Rat};

fn make_dummy() -> Buffer {
    let mut samples: Vec<i64> = Vec::new();
    for i in 0..88200usize {
        samples.push(1000 + ((i as i64 * 37) % 59001));
    }
    Buffer::new(samples, 2, 44100).unwrap()
}

/// An eight-second source, long enough for every blender's segment picks.
fn make_long(phase: i64) -> Buffer {
    let mut samples: Vec<i64> = Vec::new();
    for i in 0..705600usize {
        samples.push(500 + ((i as i64 * 29 + phase) % 60001));
    }
    Buffer::new(samples, 2, 44100).unwrap()
}

fn dur_secs(b: &Buffer) -> f64 {
    (b.samples.len() / b.fmt.channels) as f64 / b.fmt.sample_rate as f64
}

fn peak(b: &Buffer) -> i64 {
    b.samples.iter().map(|s| s.abs()).max().unwrap_or(0)
}

#[test]
fn test_pick_effect() {
    let input = make_dummy();
    let duration = Time::abs(1, 2);
    let out = w4v::pick::pick(&input, &duration).expect("Pick function failed");
    assert!(
        (dur_secs(&out) - dur_secs(&input) / 2.0).abs() < 0.01,
        "Picked duration should be accurate"
    );
    assert_ne!(input.samples, out.samples, "Pick should modify the audio content");
    // the exact frame count pins the random draw inside the valid range
    assert_eq!(out.samples.len(), 44100);
}

#[test]
fn test_mosaic() {
    let input = make_dummy();
    let pattern = "ab_ab_ac_d_";
    let segment_len = Time::abs(1, 10);
    let out = w4v::mosaic::mosaic(&input, pattern, &segment_len).expect("mosaic function failed");
    let expected = pattern.len() as f64 * 0.1;
    assert!(
        (dur_secs(&out) - expected).abs() < 0.01,
        "Mosaic duration is incorrect"
    );
}

#[test]
fn mosaic_pattern_reuses_picks() {
    let input = make_dummy();
    let mut rng = StdRng::seed_from_u64(7);
    let segment_len = Time::abs(1, 10);
    let out = w4v::mosaic::mosaic_with_rng(&input, &mut rng, "abab", &segment_len)
        .expect("mosaic function failed");
    // 0.1 s at 44100 over 2 channels
    let seg = 4410 * 2;
    assert_eq!(out.samples.len(), 4 * seg);
    assert_eq!(
        out.samples[0..seg],
        out.samples[2 * seg..3 * seg],
        "First and third segments should both be the cached pick for 'a'"
    );
    assert_eq!(
        out.samples[seg..2 * seg],
        out.samples[3 * seg..4 * seg],
        "Second and fourth segments should both be the cached pick for 'b'"
    );
    assert!((dur_secs(&out) - 0.4).abs() < 0.01, "Total duration should be about 0.4 s");
}

#[test]
fn mosaic_silence_symbol_is_silent() {
    let input = make_dummy();
    let mut rng = StdRng::seed_from_u64(7);
    let segment_len = Time::abs(1, 10);
    let out = w4v::mosaic::mosaic_with_rng(&input, &mut rng, "_a_", &segment_len)
        .expect("mosaic function failed");
    let seg = 4410 * 2;
    assert!(out.samples[0..seg].iter().all(|s| *s == 0));
    assert!(out.samples[2 * seg..3 * seg].iter().all(|s| *s == 0));
}

#[test]
fn duration_of_concatenation_adds() {
    let a = make_dummy();
    let b = w4v::cut::cut(&a, &Time::abs(0, 1), &Time::fract(1, 2)).unwrap();
    let out = w4v::add::add(&a, &b).unwrap();
    assert_eq!(dur_secs(&out), dur_secs(&a) + dur_secs(&b));
}

#[test]
fn resize_duration_matches_target() {
    let a = make_dummy();
    let out = w4v::resize::resize(&a, &Rat { num: 777, den: 1000 }).unwrap();
    assert!((dur_secs(&out) - 0.777).abs() <= 1.0 / 44100.0);
}

#[test]
fn speed_two_halves_duration() {
    let a = make_dummy();
    let out = w4v::speed::speed(&a, &Rat { num: 2, den: 1 }).unwrap();
    assert_eq!(dur_secs(&out), 0.5);
}

#[test]
fn speed_half_doubles_duration() {
    let a = make_dummy();
    let out = w4v::speed::speed(&a, &Rat { num: 1, den: 2 }).unwrap();
    assert_eq!(dur_secs(&out), 2.0);
}

#[test]
fn maxgain_peak_never_exceeds_full_scale() {
    let quiet = w4v::gain::gain(&make_dummy(), 100);
    let out = w4v::maxgain::maxgain(&quiet);
    assert!(peak(&out) <= 65536);
    assert_eq!(peak(&out), 65536, "A non-silent quiet buffer is raised to exactly full scale");
}

#[test]
fn split_join_reconstructs() {
    let a = make_dummy();
    let segments = w4v::split::split(&a, 7).unwrap();
    let out = w4v::join::join(&segments).unwrap();
    assert_eq!(out.samples.len(), a.samples.len());
    assert_eq!(out.samples, a.samples);
}

#[test]
fn cut_start_beyond_end_fails() {
    let a = make_dummy();
    // two seconds into a one-second buffer
    let r = w4v::cut::cut(&a, &Time::abs(2, 1), &Time::fract(1, 2));
    assert_eq!(r.unwrap_err(), Error::OutOfRange);
    // the whole duration as a fractional start
    let r2 = w4v::cut::cut(&a, &Time::fract(1, 1), &Time::fract(1, 2));
    assert_eq!(r2.unwrap_err(), Error::OutOfRange);
}

#[test]
fn blend_rand_is_deterministic() {
    let inputs = vec![make_long(0), make_long(1111), make_long(2222)];
    let mut rng1 = StdRng::seed_from_u64(42);
    let out1 = w4v::blend::blend(&inputs, &mut rng1, "rand", None).expect("blend failed");
    let mut rng2 = StdRng::seed_from_u64(42);
    let out2 = w4v::blend::blend(&inputs, &mut rng2, "rand", None).expect("blend failed");
    assert_eq!(out1.samples, out2.samples, "Same seed and inputs must reproduce the output");
    assert_eq!(out1.fmt, out2.fmt);
}

#[test]
fn blend_each_registered_blender_runs() {
    let inputs = vec![make_long(0), make_long(1111), make_long(2222)];
    let mut names: Vec<String> = w4v::blend::get_blenders();
    assert_eq!(names.len(), 5);
    names.push("rand".to_string());
    for (i, name) in names.iter().enumerate() {
        let mut rng = StdRng::seed_from_u64(100 + i as u64);
        let out = w4v::blend::blend(&inputs, &mut rng, name, None).expect("blend failed");
        assert!(peak(&out) <= 65536, "Blended output must stay within full scale");
    }
}

#[test]
fn blend_with_post_effect_runs() {
    let inputs = vec![make_long(0), make_long(1111), make_long(2222)];
    let mut rng = StdRng::seed_from_u64(5);
    let out = w4v::blend::blend(&inputs, &mut rng, "xfade", Some("rand")).expect("blend failed");
    assert!(peak(&out) <= 65536);
    let mut rng2 = StdRng::seed_from_u64(5);
    let out2 = w4v::blend::blend(&inputs, &mut rng2, "xfade", Some("lowpass"))
        .expect("blend failed");
    assert!(peak(&out2) <= 65536);
}

#[test]
fn blend_unknown_blender_is_rejected() {
    let inputs = vec![make_dummy(), make_dummy()];
    let mut rng = StdRng::seed_from_u64(1);
    let r = w4v::blend::blend(&inputs, &mut rng, "warble", None);
    assert_eq!(r.unwrap_err(), Error::UnknownBlender);
}

#[test]
fn blend_unknown_effect_is_rejected() {
    let inputs = vec![make_long(0), make_long(1111), make_long(2222)];
    let mut rng = StdRng::seed_from_u64(1);
    let r = w4v::blend::blend(&inputs, &mut rng, "xfade", Some("sparkle"));
    assert_eq!(r.unwrap_err(), Error::UnknownEffect);
}

#[test]
fn fx_dispatcher_applies_named_effects() {
    let input = make_dummy();
    let mut rng = StdRng::seed_from_u64(3);
    for name in ["highpass", "lowpass", "bitcrush", "flanger", "rand"] {
        let out = w4v::fx::apply_fx_with_rng(&input, &mut rng, name).expect("effect failed");
        assert_eq!(out.samples.len(), input.samples.len());
    }
    let bad = w4v::fx::apply_fx_with_rng(&input, &mut rng, "sparkle");
    assert_eq!(bad.unwrap_err(), Error::UnknownEffect);
    let list = w4v::fx::get_fx_list();
    assert_eq!(list, vec!["bitcrush".to_string(), "flanger".to_string()]);
}

#[test]
fn patterns_pool_is_fixed() {
    let pats = w4v::blender_mosaic::get_patterns();
    assert_eq!(pats.len(), 87);
    assert_eq!(pats[0], "a_b_a__ca_b_c___");
    assert_eq!(pats[36], "abcb");
    assert_eq!(pats[38], "a_b_");
    assert_eq!(pats, w4v::blender_mosaic::get_patterns(), "The pool is the same every call");
    assert!(pats.iter().all(|p| !p.is_empty()
        && p.chars().all(|ch| matches!(ch, 'a' | 'b' | 'c' | 'd' | '_'))));
    let mut rng = StdRng::seed_from_u64(9);
    let p = w4v::blender_mosaic::get_random_pattern(&mut rng);
    assert!(pats.contains(&p));
}

#[test]
fn xfade_output_is_four_mean_quarters() {
    // two one-second inputs: quarters of 11025 frames each, mean 11025,
    // repeated four times: exactly one second out
    let inputs = vec![make_dummy(), make_dummy()];
    let mut rng = StdRng::seed_from_u64(11);
    let out = w4v::xfade::xfade(&inputs, &mut rng, ).expect("xfade failed");
    assert_eq!(out.samples.len() / 2, 4 * 11025);
    assert_eq!(dur_secs(&out), 1.0);
}

#[test]
fn delayer_succeeds_on_matching_stereo_inputs() {
    let inputs = vec![make_dummy(), make_dummy()];
    for seed in 0..8u64 {
        let mut rng = StdRng::seed_from_u64(seed);
        let out = w4v::delayer::delayer(&inputs, &mut rng).expect("delayer failed");
        assert_eq!(out.fmt, inputs[0].fmt);
    }
}

#[test]
fn m4ze_needs_sixty_four_frames() {
    let short = Buffer::new(vec![0i64; 64], 2, 44100).unwrap();  // 32 frames
    let inputs = vec![short, make_dummy()];
    let mut rng = StdRng::seed_from_u64(2);
    let r = w4v::m4ze::m4ze(&inputs, &mut rng);
    assert_eq!(r.unwrap_err(), Error::TooManySegments);
}

#[test]
fn m4ze_output_covers_first_input() {
    let inputs = vec![make_dummy(), make_dummy()];
    let mut rng = StdRng::seed_from_u64(3);
    let out = w4v::m4ze::m4ze(&inputs, &mut rng).expect("m4ze failed");
    assert!(out.samples.len() >= inputs[0].samples.len());
}

#[test]
fn samplicat_succeeds_on_any_nonempty_input() {
    let tiny = Buffer::new(vec![5i64, -5], 2, 44100).unwrap();
    let mut rng = StdRng::seed_from_u64(4);
    let out = w4v::samplicat::samplicat(&vec![tiny], &mut rng).expect("samplicat failed");
    assert_eq!(out.fmt.channels, 2);
}

#[test]
fn outbreaker_lands_between_twelve_and_sixteen_seconds() {
    let inputs = vec![make_long(0), make_long(1111), make_long(2222)];
    for seed in 0..4u64 {
        let mut rng = StdRng::seed_from_u64(seed);
        let out = w4v::outbreaker::outbreaker(&inputs, &mut rng).expect("outbreaker failed");
        let d = dur_secs(&out);
        assert!(12.0 - 1.0 / 44100.0 <= d && d <= 16.0 + 1.0 / 44100.0);
    }
}

#[test]
fn normalize_speed_rejects_two_empty_inputs() {
    let empty1 = Buffer::new(Vec::new(), 2, 44100).unwrap();
    let empty2 = Buffer::new(Vec::new(), 2, 44100).unwrap();
    let r = w4v::utils::normalize_speed(&empty1, &empty2);
    assert_eq!(r.unwrap_err(), Error::InvalidParameter);
}

#[test]
fn blend_output_peak_is_full_or_silent() {
    let inputs = vec![make_long(0), make_long(1111), make_long(2222)];
    let mut rng = StdRng::seed_from_u64(77);
    let out = w4v::blend::blend(&inputs, &mut rng, "delayer", None).expect("blend failed");
    let p = peak(&out);
    assert!(p == 65536 || p == 0);
    assert_eq!(p, 65536, "These inputs are not silent");
}

#[test]
fn time_parser_pins_decimal_and_fraction_values() {
    match Time::from_str("10.5").unwrap() {
        Time::Absolute(r) => {
            assert_eq!(r.num, 105);
            assert_eq!(r.den, 10);
        },
        _ => panic!("expected an absolute time"),
    }
    match Time::from_str("3/4").unwrap() {
        Time::Fraction(r) => {
            assert_eq!(r.num, 3);
            assert_eq!(r.den, 4);
        },
        _ => panic!("expected a fraction"),
    }
    match Time::from_str("0.25/2").unwrap() {
        Time::Fraction(r) => {
            // (25/100) / (2/1) = 25 / 200
            assert_eq!(r.num, 25);
            assert_eq!(r.den, 200);
        },
        _ => panic!("expected a fraction"),
    }
    assert_eq!(Time::from_str("1.2.3").unwrap_err(), Error::InvalidTime);
    assert_eq!(Time::from_str("1/2/3").unwrap_err(), Error::InvalidTime);
    assert_eq!(Time::from_str("1234567890").unwrap_err(), Error::InvalidTime);
}

#[test]
fn time_expressions_parse_and_resolve() {
    let t = Time::from_str("2").unwrap();
    match t {
        Time::Absolute(r) => {
            assert_eq!(r.num, 2);
            assert_eq!(r.den, 1);
        },
        _ => panic!("expected an absolute time"),
    }
    let q = Time::from_str("0.25").unwrap();
    match q {
        Time::Absolute(r) => {
            assert_eq!(r.num, 25);
            assert_eq!(r.den, 100);
        },
        _ => panic!("expected an absolute time"),
    }
    let f = Time::from_str("1/2").unwrap();
    match f {
        Time::Fraction(r) => {
            assert_eq!(r.num * 2, r.den);
        },
        _ => panic!("expected a fraction"),
    }
    assert_eq!(Time::from_str("garble").unwrap_err(), Error::InvalidTime);
    assert_eq!(Time::from_str("1/0").unwrap_err(), Error::InvalidTime);
    assert_eq!(Time::from_str("").unwrap_err(), Error::InvalidTime);
    assert_eq!(Time::from_str("-1").unwrap_err(), Error::InvalidTime);

    // resolving a fraction multiplies the total duration
    let total = w4v::len::len(&make_dummy());
    let half = Time::fract(1, 2);
    let sec = half.resolve(&total).unwrap();
    assert_eq!(sec.num * 2 * total.den, sec.den * total.num);
}

#[test]
fn silence_is_zero_stereo() {
    let s = w4v::silence::silence(&Rat { num: 1, den: 2 }).unwrap();
    assert_eq!(s.fmt.channels, 2);
    assert_eq!(s.fmt.sample_rate, 44100);
    assert_eq!(s.samples.len(), 2 * 22050);
    assert!(s.samples.iter().all(|v| *v == 0));
}

#[test]
fn normalize_speed_matches_durations() {
    let a = make_dummy();
    let b = w4v::cut::cut(&a, &Time::abs(0, 1), &Time::fract(1, 2)).unwrap();
    let (na, nb, l) = w4v::utils::normalize_speed(&a, &b).unwrap();
    // the average of 1 s and 0.5 s is 0.75 s
    assert!((dur_secs(&na) - 0.75).abs() <= 1.0 / 44100.0);
    assert!((dur_secs(&nb) - 0.75).abs() <= 1.0 / 44100.0);
    assert_eq!(l.num as f64 / l.den as f64, 0.75);
}

#[test]
fn pick_duration_cannot_exceed_source() {
    let a = make_dummy();
    let r = w4v::pick::pick(&a, &Time::abs(2, 1));
    assert_eq!(r.unwrap_err(), Error::OutOfRange);
}

#[test]
fn exact_sample_arithmetic() {
    // the saturating curve on a half-scale sample: x (27 S^2 + x^2) / (27 S^2 + 9 x^2)
    let half = Buffer::new(vec![32768i64], 1, 44100).unwrap();
    let driven = w4v::gain::gain(&half, 65536);
    assert_eq!(driven.samples, vec![30527i64]);

    // averaging rounds toward zero
    let a = Buffer::new(vec![20000i64, -20000], 1, 44100).unwrap();
    let b = Buffer::new(vec![10000i64, 10001], 1, 44100).unwrap();
    let m = w4v::mix::mix(&a, &b, false).unwrap();
    assert_eq!(m.samples, vec![15000i64, -4999]);

    // peak normalization scales by full scale over the peak, exactly
    let q = Buffer::new(vec![-30000i64, 15000], 1, 44100).unwrap();
    let n = w4v::maxgain::maxgain(&q);
    assert_eq!(n.samples, vec![-65536i64, 32768]);
}

#[test]
fn exact_resampler_values() {
    // factor two reads every second frame exactly
    let src = Buffer::new(vec![100i64, 200, 300, 400], 1, 44100).unwrap();
    let fast = w4v::speed::speed(&src, &Rat { num: 2, den: 1 }).unwrap();
    assert_eq!(fast.samples, vec![100i64, 300]);

    // factor one half interpolates midpoints, and reads silence past the end
    let two = Buffer::new(vec![100i64, 200], 1, 44100).unwrap();
    let slow = w4v::speed::speed(&two, &Rat { num: 1, den: 2 }).unwrap();
    assert_eq!(slow.samples, vec![100i64, 150, 200, 100]);
}

#[test]
fn blend_xfade_succeeds_on_ready_inputs() {
    let inputs = vec![make_dummy(), make_dummy()];
    let mut rng = StdRng::seed_from_u64(21);
    let out = w4v::blend::blend(&inputs, &mut rng, "xfade", None).expect("blend failed");
    assert_eq!(out.fmt, inputs[0].fmt);
}

#[test]
fn delayer_requires_the_silence_format() {
    // the silence pad is stereo at 44100; other formats cannot blend
    let mono = Buffer::new(vec![100i64; 8000], 1, 8000).unwrap();
    let inputs = vec![mono.dup(), mono];
    let mut rng = StdRng::seed_from_u64(6);
    assert!(w4v::delayer::delayer(&inputs, &mut rng).is_err());
}
