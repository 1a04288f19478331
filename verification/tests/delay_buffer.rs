use sound_link::router::delay_buffer::DelayBuffer;

fn bits(v: &[f32]) -> Vec<u32> {
    v.iter().map(|x| x.to_bits()).collect()
}

#[test]
fn test_delay_buffer() {
    let mut buffer = DelayBuffer::new(100, 48000, 2);

    for i in 0..100 {
        buffer.push_slice(&bits(&[i as f32, i as f32]));
    }

    assert_eq!(buffer.len(), 200);
}

#[test]
fn delay_rounds_to_nearest_frame() {
    // 100 ms at 48 kHz is 4800 frames, 9600 samples in stereo.
    assert_eq!(DelayBuffer::new(100, 48000, 2).delay_samples(), 9600);
    // 1 ms at 44.1 kHz is 44.1 frames: 44.
    assert_eq!(DelayBuffer::new(1, 44100, 1).delay_samples(), 44);
    // 1 ms at 44.5 kHz is 44.5 frames: halves go up, 45.
    assert_eq!(DelayBuffer::new(1, 44500, 1).delay_samples(), 45);
    // No delay still delays by one frame.
    assert_eq!(DelayBuffer::new(0, 48000, 2).delay_samples(), 2);
    assert_eq!(DelayBuffer::new(0, 48000, 0).delay_samples(), 0);
}

#[test]
fn silent_within_the_delay() {
    let mut buffer = DelayBuffer::new(0, 1000, 2);
    assert_eq!(buffer.delay_samples(), 2);
    assert_eq!(buffer.pop_or_silent(), vec![0, 0]);
    buffer.push_slice(&[7, 8]);
    // Two samples queued, not more than the delay: still silence, nothing taken.
    assert_eq!(buffer.pop_or_silent(), vec![0, 0]);
    assert_eq!(buffer.len(), 2);
    buffer.push_slice(&[9, 10]);
    assert_eq!(buffer.pop_or_silent(), vec![7, 8]);
    assert_eq!(buffer.len(), 2);
    assert_eq!(buffer.pop_or_silent(), vec![0, 0]);
}

#[test]
fn short_queue_past_the_delay_pads_with_silence() {
    // A delay of one sample with frames of two channels.
    let mut buffer = DelayBuffer::new(0, 1000, 1);
    assert_eq!(buffer.channels(), 1);
    buffer.push_slice(&[1, 2]);
    assert_eq!(buffer.pop_or_silent(), vec![1]);
    assert_eq!(buffer.len(), 1);
}

#[test]
fn delay_is_exact_law_on_values() {
    // delay 4 samples (2 frames of 2 channels), then 3 more frames pushed.
    let mut buffer = DelayBuffer::new(2, 1000, 2);
    assert_eq!(buffer.delay_samples(), 4);
    let samples: Vec<u32> = (1..=10).collect();
    buffer.push_slice(&samples);
    let mut out = Vec::new();
    for _ in 0..3 {
        out.extend(buffer.pop_or_silent());
    }
    assert_eq!(out, vec![1, 2, 3, 4, 5, 6]);
    assert_eq!(buffer.len(), 4);
    assert_eq!(buffer.pop_or_silent(), vec![0, 0]);
}

#[test]
fn set_delay_keeps_queue_and_clear_empties() {
    let mut buffer = DelayBuffer::new(10, 1000, 2);
    assert_eq!(buffer.delay_samples(), 20);
    buffer.push_slice(&[1, 2, 3, 4]);
    buffer.set_delay(1, 1000);
    assert_eq!(buffer.delay_samples(), 2);
    assert_eq!(buffer.len(), 4);
    assert_eq!(buffer.pop_or_silent(), vec![1, 2]);
    buffer.clear();
    assert_eq!(buffer.len(), 0);
    assert_eq!(buffer.pop_or_silent(), vec![0, 0]);
}

#[test]
fn float_samples_survive_as_bits() {
    let mut buffer = DelayBuffer::new(0, 1000, 1);
    buffer.push_slice(&bits(&[0.25, -1.5]));
    let frame = buffer.pop_or_silent();
    assert_eq!(f32::from_bits(frame[0]), 0.25);
}

#[test]
fn pop_frames_reads_frames_in_a_row() {
    let mut buffer = DelayBuffer::new(1, 1000, 2);
    assert_eq!(buffer.delay_samples(), 2);
    buffer.push_slice(&[1, 2, 3, 4, 5, 6]);
    // Two frames come out, then the delay holds the rest back.
    assert_eq!(buffer.pop_frames(3), vec![1, 2, 3, 4, 0, 0]);
    assert_eq!(buffer.len(), 2);
}

#[test]
fn integer_delay_agrees_with_binary64_rounding() {
    for delay_ms in [0u32, 1, 3, 7, 10, 33, 100, 250, 999, 1000, 12345, 600000] {
        for sample_rate in [8000u32, 11025, 22050, 44100, 44500, 48000, 96000, 192000] {
            for channels in [1usize, 2, 6] {
                let expected = ((delay_ms as f64 * sample_rate as f64 / 1000.0).round() as usize
                    * channels)
                    .max(channels);
                assert_eq!(
                    DelayBuffer::new(delay_ms, sample_rate, channels).delay_samples(),
                    expected
                );
            }
        }
    }
}

fn binary64_delay_samples(delay_ms: u32, sample_rate: u32, channels: usize) -> usize {
    ((delay_ms as f64 * sample_rate as f64 / 1000.0).round() as usize * channels).max(channels)
}

#[test]
fn huge_delays_follow_binary64_rounding() {
    assert_eq!(DelayBuffer::new(u32::MAX, u32::MAX, 1).delay_samples(), 18446744065119616);
    assert_eq!(
        DelayBuffer::new(u32::MAX, u32::MAX, 1).delay_samples(),
        binary64_delay_samples(u32::MAX, u32::MAX, 1)
    );
    let mut state: u64 = 0x2545_F491_4F6C_DD1D;
    for _ in 0..20000 {
        state ^= state << 13;
        state ^= state >> 7;
        state ^= state << 17;
        let delay_ms = (state >> 32) as u32;
        let sample_rate = state as u32;
        let shift = (state >> 58) as u32;
        let (d, r) = (delay_ms >> (shift % 32), sample_rate >> (shift / 2));
        assert_eq!(
            DelayBuffer::new(d, r, 1).delay_samples(),
            binary64_delay_samples(d, r, 1),
            "{} ms at {} Hz",
            d,
            r
        );
    }
}
