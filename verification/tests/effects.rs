use w4v::Buffer;

fn make_dummy() -> Buffer {
    let mut samples: Vec<i64> = Vec::new();
    for i in 0..88200usize {
        samples.push(1000 + ((i as i64 * 37) % 59001));
    }
    Buffer::new(samples, 2, 44100).unwrap()
}

fn dur_secs(b: &Buffer) -> f64 {
    (b.samples.len() / b.fmt.channels) as f64 / b.fmt.sample_rate as f64
}

fn amp_of_db(db: f64) -> u64 {
    (10f64.powf(db / 20.0) * 65536.0).round() as u64
}

#[test]
fn test_pitch_output_properties() {
    let input = make_dummy();
    let out = w4v::bitcrush::bitcrush(&input, 2).expect("bitcrush function failed");
    assert_eq!(
        dur_secs(&input),
        dur_secs(&out),
        "Output duration should be the same as input duration"
    );
    assert_ne!(input.samples, out.samples, "Output content should be different");
}

#[test]
fn test_flanger_effect() {
    let input = make_dummy();
    // 5 ms delay, 2 ms depth, 0.5 Hz rate, 0.7 feedback
    let out = w4v::flanger::flanger(&input, 5000, 2000, 500, (0.7f64 * 65536.0) as i64)
        .expect("Flanger function failed");
    assert_eq!(
        dur_secs(&input),
        dur_secs(&out),
        "Flanger should not change the duration"
    );
    assert_ne!(input.samples, out.samples, "Flanger should modify the audio content");
}

#[test]
fn test_overdrive_effect() {
    let input = make_dummy();
    let out = w4v::overdrive::overdrive(&input, amp_of_db(10.0), amp_of_db(-3.0));
    assert_ne!(
        input.samples, out.samples,
        "Output content should be different from input content"
    );
}

#[test]
fn test_reverb_effect() {
    let input = make_dummy();
    let out = w4v::reverb::reverb(&input, 100, 32768).expect("Reverb function failed");
    assert_eq!(
        dur_secs(&input),
        dur_secs(&out),
        "Reverb should not change the duration"
    );
    assert_ne!(input.samples, out.samples, "Reverb should modify the audio content");
}

#[test]
fn test_reverb_increases_sample_values() {
    let input = make_dummy();
    let original_avg: f64 = input.samples.iter().map(|s| s.abs() as f64).sum::<f64>()
        / input.samples.len() as f64;
    let out = w4v::reverb::reverb(&input, 100, 32768).expect("Reverb function failed");
    let processed_avg: f64 = out.samples.iter().map(|s| s.abs() as f64).sum::<f64>()
        / out.samples.len() as f64;
    assert!(
        processed_avg > original_avg,
        "Reverb should increase the average absolute sample value"
    );
}

#[test]
fn test_highpass_output_properties() {
    let input = make_dummy();
    let out = w4v::highpass::highpass(&input, 1000);
    assert_eq!(
        dur_secs(&input),
        dur_secs(&out),
        "Output duration should be the same as input duration"
    );
    assert_ne!(input.samples, out.samples, "Output content should be different");
}

#[test]
fn test_lowpass_output_properties() {
    let input = make_dummy();
    let out = w4v::lowpass::lowpass(&input, 1000);
    assert_eq!(
        dur_secs(&input),
        dur_secs(&out),
        "Output duration should be the same as input duration"
    );
    assert_ne!(input.samples, out.samples, "Output content should be different");
}

#[test]
fn soft_clamp_bounds_loud_gain() {
    // a heavy gain drives samples far outside range; the saturator must
    // bring every sample back inside
    let input = make_dummy();
    let out = w4v::gain::gain(&input, amp_of_db(40.0));
    assert!(out.samples.iter().all(|s| -65536 <= *s && *s <= 65536));
    // a full-scale input at such gain saturates to exactly full scale
    let loud = Buffer::new(vec![65536i64; 4], 1, 44100).unwrap();
    let driven = w4v::gain::gain(&loud, amp_of_db(40.0));
    assert_eq!(driven.samples, vec![65536i64; 4]);
}
