// The audio pipeline: frame buffer, resampler, capture composition.

use voice_frontend::buffer::FrameBuffer;
use voice_frontend::capture::{capture_buffer_samples, ingest_hardware_block, pick_native_config, NativeConfig};
use voice_frontend::resample::{downmix, Resampler};

#[test]
fn buffer_keeps_samples_in_arrival_order() {
    let mut b = FrameBuffer::new(8);
    for s in [1i16, 2, 3, 4, 5] {
        b.push(s);
    }
    assert_eq!(b.len(), 5);
    let out = b.take(3);
    assert_eq!(out, vec![1, 2, 3]);
    assert_eq!(b.len(), 2);
    let rest = b.take(2);
    assert_eq!(rest, vec![4, 5]);
    assert_eq!(b.len(), 0);
}

#[test]
fn buffer_drops_oldest_on_overflow() {
    let mut b = FrameBuffer::new(4);
    for s in [10i16, 20, 30, 40, 50, 60] {
        b.push(s);
    }
    // six pushes into capacity four retain exactly the most recent four
    assert_eq!(b.len(), 4);
    let out = b.take(4);
    assert_eq!(out, vec![30, 40, 50, 60]);
}

#[test]
fn buffer_push_block_matches_single_pushes() {
    let mut a = FrameBuffer::new(3);
    let mut b = FrameBuffer::new(3);
    let block = vec![7i16, 8, 9, 10];
    a.push_block(&block);
    for s in [7i16, 8, 9, 10] {
        b.push(s);
    }
    assert_eq!(a.take(3), b.take(3));
}

#[test]
fn buffer_take_returns_exactly_n() {
    let mut b = FrameBuffer::new(16);
    for s in 0..10 {
        b.push(s as i16);
    }
    let out = b.take(10);
    assert_eq!(out.len(), 10);
    assert_eq!(out, (0..10).map(|x| x as i16).collect::<Vec<_>>());
}

#[test]
fn capture_buffer_holds_five_seconds() {
    assert_eq!(capture_buffer_samples(), 80_000);
}

#[test]
fn native_config_prefers_exact_analysis_format() {
    let stereo = NativeConfig {
        channels: 2,
        min_sample_rate: 8_000,
        max_sample_rate: 48_000,
        sample_format_i16: true,
    };
    let mono_float = NativeConfig {
        channels: 1,
        min_sample_rate: 8_000,
        max_sample_rate: 48_000,
        sample_format_i16: false,
    };
    let mono_i16 = NativeConfig {
        channels: 1,
        min_sample_rate: 16_000,
        max_sample_rate: 44_100,
        sample_format_i16: true,
    };
    let too_high = NativeConfig {
        channels: 1,
        min_sample_rate: 44_100,
        max_sample_rate: 48_000,
        sample_format_i16: true,
    };
    assert_eq!(pick_native_config(&vec![stereo, mono_float, mono_i16, too_high]), Some(2));
    assert_eq!(pick_native_config(&vec![stereo, mono_float, too_high]), None);
    assert_eq!(pick_native_config(&Vec::new()), None);
}

#[test]
fn resampler_is_identity_at_analysis_rate() {
    let mut rs = Resampler::new(16_000);
    let input: Vec<i16> = (0..1600).map(|x| (x % 100) as i16).collect();
    let out = rs.process(&input);
    assert_eq!(out, input);
}

#[test]
fn resampler_duplicates_slower_input() {
    let mut rs = Resampler::new(8_000);
    let out = rs.process(&vec![1i16, 2]);
    assert_eq!(out, vec![1, 1, 2, 2]);
}

#[test]
fn resampler_drops_faster_input() {
    let mut rs = Resampler::new(32_000);
    let out = rs.process(&vec![5i16, 6, 7, 8]);
    assert_eq!(out, vec![5, 7]);
}

#[test]
fn resampler_output_length_within_one_sample_per_second() {
    // one second of input at each supported hardware rate comes out as
    // 16000 samples, give or take one
    for rate in [8_000u32, 16_000, 44_100, 48_000] {
        let mut rs = Resampler::new(rate);
        let input: Vec<i16> = vec![3; rate as usize];
        let out = rs.process(&input);
        let len = out.len() as i64;
        assert!(
            (len - 16_000).abs() <= 1,
            "rate {rate}: got {len} samples"
        );
    }
}

#[test]
fn resampler_phase_persists_across_blocks() {
    // feeding one second in two blocks gives the same total as one block
    let mut one = Resampler::new(44_100);
    let whole: Vec<i16> = (0..44_100).map(|x| (x % 7) as i16).collect();
    let total = one.process(&whole).len();

    let mut two = Resampler::new(44_100);
    let first: Vec<i16> = whole[..10_000].to_vec();
    let second: Vec<i16> = whole[10_000..].to_vec();
    let split_total = two.process(&first).len() + two.process(&second).len();
    assert_eq!(total, split_total);
}

#[test]
fn downmix_takes_one_channel_per_frame() {
    let data = vec![1i16, -1, 2, -2, 3, -3];
    assert_eq!(downmix(&data, 2), vec![1, 2, 3]);
    assert_eq!(downmix(&data, 3), vec![1, -2]);
    assert_eq!(downmix(&data, 1), data);
}

#[test]
fn downmix_handles_trailing_partial_frame() {
    let data = vec![9i16, 8, 7, 6, 5];
    assert_eq!(downmix(&data, 2), vec![9, 7, 5]);
}

#[test]
fn ingest_feeds_buffer_through_downmix_and_resample() {
    // stereo input at 32 kHz: downmix keeps the left channel, resampling
    // halves it
    let mut rs = Resampler::new(32_000);
    let mut buf = FrameBuffer::new(100);
    let data = vec![1i16, 0, 2, 0, 3, 0, 4, 0];
    ingest_hardware_block(&mut rs, &mut buf, &data, 2);
    assert_eq!(buf.len(), 2);
    assert_eq!(buf.take(2), vec![1, 3]);
}
