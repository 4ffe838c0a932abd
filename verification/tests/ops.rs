use w4v::time::Time;
use w4v::{Buffer, Error, Rat};

fn make_dummy() -> Buffer {
    let mut samples: Vec<i64> = Vec::new();
    for i in 0..88200usize {
        samples.push(1000 + ((i as i64 * 37) % 59001));
    }
    Buffer::new(samples, 2, 44100).unwrap()
}

fn dur_secs(b: &Buffer) -> f64 {
    (b.samples.len() / b.fmt.channels) as f64 / b.fmt.sample_rate as f64
}

fn peak(b: &Buffer) -> i64 {
    b.samples.iter().map(|s| s.abs()).max().unwrap_or(0)
}

fn amp_of_db(db: f64) -> u64 {
    (10f64.powf(db / 20.0) * 65536.0).round() as u64
}

#[test]
fn test_add_duration() {
    let input1 = make_dummy();
    let input2 = make_dummy();
    let out = w4v::add::add(&input1, &input2).expect("add function failed");
    assert_eq!(
        dur_secs(&out),
        dur_secs(&input1) + dur_secs(&input2),
        "Output duration should be the sum of input durations"
    );
}

#[test]
fn test_cut_effect() {
    let input = make_dummy();
    let original_duration = dur_secs(&input);

    // absolute values: a quarter in, half the total long
    let start_abs = Time::abs(1, 4);
    let dur_abs = Time::abs(1, 2);
    let out_abs = w4v::cut::cut(&input, &start_abs, &dur_abs)
        .expect("Cut function failed with absolute values");
    assert!(
        (dur_secs(&out_abs) - original_duration / 2.0).abs() < 0.01,
        "Cut duration should be accurate for absolute values"
    );
    assert_ne!(input.samples, out_abs.samples, "Cut should modify the audio content");

    // fractional values
    let start_frac = Time::fract(1, 4);
    let dur_frac = Time::fract(1, 2);
    let out_frac = w4v::cut::cut(&input, &start_frac, &dur_frac)
        .expect("Cut function failed with fractional values");
    assert!(
        (dur_secs(&out_frac) - original_duration / 2.0).abs() < 0.01,
        "Cut duration should be accurate for fractional values"
    );
    assert_ne!(input.samples, out_frac.samples, "Cut should modify the audio content");
}

#[test]
fn test_cut_channel_alignment() {
    let input = make_dummy();
    let start = Time::abs(0, 1);
    let duration = Time::fract(1, 1000);
    let out = w4v::cut::cut(&input, &start, &duration)
        .expect("Cut function should handle channel alignment");
    assert!(dur_secs(&out) >= 0.0, "Processed duration should be non-negative");
    assert_eq!(out.samples.len() % 2, 0, "Cut output should stay frame-aligned");
}

#[test]
fn test_split_normal() {
    let input = make_dummy();
    let n = 4;
    let segments = w4v::split::split(&input, n).expect("split function failed");
    assert_eq!(segments.len(), n, "Should produce n segments");
    let segment_duration = dur_secs(&input) / n as f64;
    for (i, segment) in segments.iter().enumerate() {
        if i < n - 1 {
            assert!(
                (dur_secs(segment) - segment_duration).abs() < 0.01,
                "Segment duration is incorrect"
            );
        } else {
            assert!(dur_secs(segment) >= segment_duration, "Last segment duration is incorrect");
        }
    }
}

#[test]
fn test_split_more_segments_than_samples() {
    let input = make_dummy();
    let n = input.samples.len() + 1;
    let result = w4v::split::split(&input, n);
    assert!(result.is_err(), "Should fail if n is greater than number of samples");
}

#[test]
fn test_split_one_segment() {
    let input = make_dummy();
    let segments = w4v::split::split(&input, 1).expect("split function failed for n=1");
    assert_eq!(segments.len(), 1, "Should produce 1 segment");
    assert_eq!(
        segments[0].samples, input.samples,
        "The single segment should be identical to the original"
    );
}

#[test]
fn test_remix_normal() {
    let input = make_dummy();
    let original_duration = dur_secs(&input);
    let out = w4v::remix::remix(&input, "1324").expect("remix function failed");
    assert!(
        (dur_secs(&out) - original_duration).abs() < 0.01,
        "Output duration should be close to original duration"
    );
}

#[test]
fn test_remix_repeating() {
    let input = make_dummy();
    let segment_duration = dur_secs(&input) / 4.0;
    let out = w4v::remix::remix(&input, "1111").expect("remix function failed");
    assert!(
        (dur_secs(&out) - segment_duration * 4.0).abs() < 0.1,
        "Output duration should be 4 times a segment duration"
    );
}

#[test]
fn test_remix_invalid_pattern_char() {
    let input = make_dummy();
    let result = w4v::remix::remix(&input, "1a23");
    assert!(result.is_err(), "Should fail with invalid character in pattern");
}

#[test]
fn test_remix_invalid_pattern_index_too_high() {
    let input = make_dummy();
    let result = w4v::remix::remix(&input, "125");
    assert!(result.is_err(), "Should fail with index out of bounds");
}

#[test]
fn test_remix_invalid_pattern_index_zero() {
    let input = make_dummy();
    let result = w4v::remix::remix(&input, "120");
    assert!(result.is_err(), "Should fail with index 0");
}

#[test]
fn test_remix_empty_pattern() {
    let input = make_dummy();
    let result = w4v::remix::remix(&input, "");
    assert!(result.is_err(), "Should fail with empty pattern");
}

#[test]
fn test_speed_factor() {
    let input = make_dummy();
    let original_duration = dur_secs(&input);

    let slower = w4v::speed::speed(&input, &Rat { num: 1, den: 2 })
        .expect("Speed function failed for slower factor");
    assert!(
        dur_secs(&slower) > original_duration,
        "Slower speed should result in longer duration"
    );

    let faster = w4v::speed::speed(&input, &Rat { num: 2, den: 1 })
        .expect("Speed function failed for faster factor");
    assert!(
        dur_secs(&faster) < original_duration,
        "Faster speed should result in shorter duration"
    );
}

#[test]
fn test_resize_effect() {
    let input = make_dummy();
    let original_duration = dur_secs(&input);

    let shorter = w4v::resize::resize(&input, &Rat { num: 1, den: 2 })
        .expect("Resize function failed for shorter duration");
    assert!(
        (dur_secs(&shorter) - original_duration / 2.0).abs() < 0.01,
        "Shorter duration should be accurate"
    );
    assert_ne!(input.samples, shorter.samples, "Shorter resize should modify content");

    let longer = w4v::resize::resize(&input, &Rat { num: 2, den: 1 })
        .expect("Resize function failed for longer duration");
    assert!(
        (dur_secs(&longer) - original_duration * 2.0).abs() < 0.01,
        "Longer duration should be accurate"
    );
    assert_ne!(input.samples, longer.samples, "Longer resize should modify content");
}

#[test]
fn test_x_duration() {
    let input = make_dummy();
    let out = w4v::x::x(&input, 3).expect("x function failed");
    assert_eq!(
        dur_secs(&out),
        dur_secs(&input) * 3.0,
        "Output duration should be input duration multiplied by repeat count"
    );
}

#[test]
fn test_chop_duration() {
    let input = make_dummy();
    let out = w4v::chop::chop(&input, 3).expect("chop function failed");
    assert!(
        (dur_secs(&out) - dur_secs(&input)).abs() < 0.001,
        "Output duration should be approximately the same as input duration"
    );
}

#[test]
fn test_reverse_effect() {
    let input = make_dummy();
    let out = w4v::reverse::reverse(&input);
    assert_eq!(dur_secs(&input), dur_secs(&out), "Reverse should not change the duration");
    assert_ne!(input.samples, out.samples, "Reverse should modify the audio content");
    assert_eq!(out.samples[0], *input.samples.last().unwrap());
}

#[test]
fn test_gain_effect() {
    let input = make_dummy();
    let out = w4v::gain::gain(&input, amp_of_db(6.0));
    assert_ne!(
        input.samples, out.samples,
        "Output content should be different from input content"
    );
    assert_eq!(dur_secs(&input), dur_secs(&out), "Gain should not change the duration");
}

#[test]
fn test_fade_in_simple() {
    let input = make_dummy();
    let out = w4v::fade::fade(&input, amp_of_db(-30.0), amp_of_db(0.0));
    let failing: Vec<usize> = (0..100)
        .filter(|&i| out.samples[i].abs() >= input.samples[i].abs())
        .collect();
    assert!(failing.is_empty(), "Fade-in failed at indices: {:?}", failing);
}

#[test]
fn test_fade_out_simple() {
    let input = make_dummy();
    let out = w4v::fade::fade(&input, amp_of_db(0.0), amp_of_db(-30.0));
    let n = out.samples.len();
    let failing: Vec<usize> = (n - 100..n)
        .filter(|&i| out.samples[i].abs() >= input.samples[i].abs())
        .collect();
    assert!(failing.is_empty(), "Fade-out failed at indices: {:?}", failing);
}

#[test]
fn test_maxgain_effect() {
    let input = make_dummy();
    let max_input = peak(&input);
    assert!(max_input > 0 && max_input < 65536);
    let out = w4v::maxgain::maxgain(&input);
    assert_ne!(
        input.samples, out.samples,
        "Output content should be different from input content if gain applied"
    );
    assert_eq!(dur_secs(&input), dur_secs(&out), "Maxgain should not change the duration");
    assert_eq!(peak(&out), 65536, "Max output sample should be exactly full scale");
}

#[test]
fn test_maxgain_already_clipping() {
    let clipping = Buffer::new(vec![65536i64; 44100], 1, 44100).unwrap();
    let out = w4v::maxgain::maxgain(&clipping);
    assert_eq!(
        clipping.samples, out.samples,
        "Output should be identical for already clipping audio"
    );
}

#[test]
fn test_maxgain_silent_audio() {
    let silent = Buffer::new(vec![0i64; 44100], 1, 44100).unwrap();
    let out = w4v::maxgain::maxgain(&silent);
    assert_eq!(silent.samples, out.samples, "Output should be identical for silent audio");
}

#[test]
fn test_mix_and_normalize() {
    let input1 = make_dummy();
    let input2 = make_dummy();
    let out = w4v::mix::mix(&input1, &input2, true).expect("mix function failed");
    assert_eq!(peak(&out), 65536, "Normalization should result in a peak of full scale");
}

#[test]
fn test_mix_different_lengths() {
    let input1 = Buffer::new(vec![0i64], 1, 44100).unwrap();
    let input2 = Buffer::new(vec![0i64, 0i64], 1, 44100).unwrap();
    let out = w4v::mix::mix(&input1, &input2, false).expect("mix function failed");
    assert_eq!(out.samples.len(), 2);
}

#[test]
fn mix_format_mismatch_is_reported() {
    let stereo = make_dummy();
    let mono = Buffer::new(vec![0i64; 100], 1, 44100).unwrap();
    assert_eq!(w4v::mix::mix(&stereo, &mono, false).unwrap_err(), Error::FormatMismatch);
    assert_eq!(w4v::add::add(&stereo, &mono).unwrap_err(), Error::FormatMismatch);
}

#[test]
fn x_zero_count_is_rejected() {
    let input = make_dummy();
    assert_eq!(w4v::x::x(&input, 0).unwrap_err(), Error::InvalidParameter);
}

#[test]
fn join_empty_list_is_rejected() {
    let empty: Vec<Buffer> = Vec::new();
    assert_eq!(w4v::join::join(&empty).unwrap_err(), Error::EmptyInput);
}

#[test]
fn split_count_beyond_frames_is_reported() {
    let input = make_dummy();
    assert_eq!(w4v::split::split(&input, 50000).unwrap_err(), Error::TooManySegments);
}

#[test]
fn gain_zero_db_still_saturates() {
    // unity gain still passes through the saturating curve, which is
    // applied on every write
    let input = make_dummy();
    let out = w4v::gain::gain(&input, 65536);
    assert_eq!(out.samples.len(), input.samples.len());
    assert!(peak(&out) <= 65536);
    assert_ne!(input.samples, out.samples);
}
