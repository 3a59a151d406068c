use fluidity::audio::{AudioError, RingBuffer};
use fluidity::capture::{downmix_sums, encode_wav, samples_from_u16, Capture};
use fluidity::daemon::{drain, streaming_step, RecorderState, RING_CAPACITY};
use fluidity::resample::{split_frames, Resampler};

fn downmix(samples: &[i16], channels: u16) -> Vec<f32> {
    let ch = channels.max(1) as f32;
    downmix_sums(samples, channels).into_iter().map(|t| t as f32 / ch / 32768.0).collect()
}

#[test]
fn stereo_downmix_averages_frames() {
    let out = downmix(&[0, 100, 200, 400], 2);
    assert_eq!(out.len(), 2);
    assert_eq!(out[0] * 32768.0, 50.0);
    assert_eq!(out[1] * 32768.0, 300.0);
    let mono = downmix(&[-32768], 1);
    assert!((mono[0] + 1.0).abs() < 1e-6);
}

#[test]
fn capture_roundtrip_wav_header() {
    let cap = Capture { samples: vec![0, 100, -100], rate: 16000, channels: 1 };
    let wav = encode_wav(&cap.samples, cap.rate, cap.channels);
    assert_eq!(wav.len(), 50);
    assert_eq!(&wav[..4], b"RIFF");
    assert_eq!(u32::from_le_bytes(wav[4..8].try_into().unwrap()), 42);
    assert_eq!(u32::from_le_bytes(wav[24..28].try_into().unwrap()), 16000);
    assert_eq!(u32::from_le_bytes(wav[40..44].try_into().unwrap()), 6);
    assert_eq!(&wav[48..50], &(-100i16).to_le_bytes());
}

#[test]
fn wav_fields_of_a_stereo_recording() {
    let wav = encode_wav(&[1, -1, i16::MIN, i16::MAX], 44100, 2);
    assert_eq!(&wav[8..16], b"WAVEfmt ");
    assert_eq!(u16::from_le_bytes(wav[22..24].try_into().unwrap()), 2);
    assert_eq!(u32::from_le_bytes(wav[28..32].try_into().unwrap()), 176400);
    assert_eq!(u16::from_le_bytes(wav[32..34].try_into().unwrap()), 4);
    assert_eq!(u16::from_le_bytes(wav[34..36].try_into().unwrap()), 16);
    assert_eq!(&wav[36..40], b"data");
    assert_eq!(&wav[44..], &[1, 0, 255, 255, 0, 128, 255, 127]);
}

#[test]
fn unsigned_samples_are_shifted() {
    assert_eq!(samples_from_u16(&[0, 32768, 65535]), vec![-32768, 0, 32767]);
}

#[test]
fn the_length_of_a_recording() {
    let cap = |n: usize, rate: u32, channels: u16| Capture { samples: vec![0; n], rate, channels };
    assert_eq!(cap(48000, 16000, 2).duration_ms(), 1500);
    assert_eq!(cap(1, 16000, 1).duration_ms(), 0);
    assert_eq!(cap(16000, 16000, 0).duration_ms(), 1000);
}

#[test]
fn odd_samples_make_a_short_last_frame() {
    assert_eq!(downmix_sums(&[1, 2, 3], 2), vec![3, 3]);
    assert_eq!(downmix_sums(&[1, 2, 3], 0), vec![1, 2, 3]);
    assert_eq!(split_frames(&[1, 2, 3, 4, 5], 2), vec![vec![1, 2], vec![3, 4], vec![5]]);
}

#[test]
fn the_ring_hands_out_what_came_first() {
    let mut ring: RingBuffer<f32> = RingBuffer::new(3);
    assert_eq!(ring.capacity(), 4);
    assert!(ring.is_empty());
    assert_eq!(ring.push(&[1.0, 2.0, 3.0]), 3);
    let mut two = [0.0; 2];
    assert_eq!(ring.pop(&mut two), 2);
    assert_eq!(two, [1.0, 2.0]);
    assert_eq!(ring.push(&[4.0, 5.0, 6.0, 7.0]), 3, "one place is taken");
    assert_eq!(ring.len(), 4);
    let mut five = [9.0; 5];
    assert_eq!(ring.pop(&mut five), 4);
    assert_eq!(five, [3.0, 4.0, 5.0, 6.0, 9.0]);
}

#[test]
fn a_cleared_ring_is_empty() {
    let mut ring: RingBuffer<u8> = RingBuffer::new(0);
    assert_eq!(ring.capacity(), 1);
    assert_eq!(ring.push(&[1, 2]), 1);
    ring.clear();
    assert_eq!(ring.len(), 0);
    assert_eq!(ring.push(&[3]), 1);
    assert_eq!(drain(&mut ring), vec![3]);
}

#[test]
fn equal_rates_pass_frames_through() {
    let mut r: Resampler<i16> = Resampler::new(16000, 16000, 2);
    assert_eq!(r.process(&[1, 2, 3]), Some(vec![vec![1, 2], vec![3]]));
}

#[test]
fn other_rates_wait_for_whole_chunks() {
    let mut r: Resampler<i16> = Resampler::new(48000, 16000, 2);
    assert_eq!(r.engine_chunk(), 1024);
    assert_eq!(r.process(&[1, 2, 3, 4, 5, 6, 7]), None);
    assert_eq!(r.take_frames(4), None);
    assert_eq!(r.take_frames(2), Some(vec![vec![1, 3], vec![2, 4]]));
    assert_eq!(r.flush(false), Some(vec![vec![5, 6], vec![7]]));
    assert_eq!(r.flush(false), Some(vec![]));
    r.process(&[1; 3000]);
    assert_eq!(r.engine_chunk(), 3000);
    assert_eq!(r.flush(true), None);
    r.reset(16000, 16000, 1);
    assert_eq!(r.process(&[9]), Some(vec![vec![9]]));
}

#[test]
fn a_recorder_hands_over_all_its_samples() {
    let mut rec: RecorderState<f32> = RecorderState::new();
    assert_eq!(rec.ring.capacity(), RING_CAPACITY);
    rec.take_in(&[1.0, 2.0]);
    assert_eq!(rec.stop_and_drain(&[3.0]), vec![1.0, 2.0, 3.0]);
    assert_eq!(rec.stop_and_drain(&[]), Vec::<f32>::new());
}

#[test]
fn streaming_takes_out_what_is_beyond_a_second() {
    let mut ring: RingBuffer<u8> = RingBuffer::new(65536);
    let mut taken = vec![6];
    ring.push(&vec![7; 16010]);
    assert_eq!(streaming_step(&mut ring, &mut taken, 10), 10);
    assert_eq!(ring.len(), 16010, "not more than a second yet");
    assert_eq!(taken, vec![6]);
    ring.push(&[8]);
    assert_eq!(streaming_step(&mut ring, &mut taken, 10), 10);
    assert_eq!(taken.len(), 1 + 16001);
    assert_eq!(taken[0], 6);
    assert_eq!(drain(&mut ring), vec![7, 7, 7, 7, 7, 7, 7, 7, 7, 8]);
}

#[test]
fn a_long_recording_is_handed_over_whole() {
    let mut rec: RecorderState<u32> = RecorderState::new();
    let all: Vec<u32> = (0..200_000).collect();
    let mut pos = 0;
    for part in all.chunks(20_000) {
        rec.take_in(part);
        pos = rec.stream(pos);
    }
    assert_eq!(rec.stop_and_drain(&[200_000]), (0..=200_000).collect::<Vec<u32>>());
    assert_eq!(rec.stop_and_drain(&[]), Vec::<u32>::new());
}

#[test]
fn audio_errors_read_well() {
    assert_eq!(AudioError::NoDevice.message(), "No input device available");
    assert_eq!(AudioError::DeviceNotFound("m".into()).message(), "Device not found: m");
    assert_eq!(AudioError::StreamError("e".into()).message(), "Stream error: e");
    assert_eq!(AudioError::UnsupportedRate(8000).message(), "Unsupported sample rate: 8000");
    assert_eq!(AudioError::Platform("p".into()).message(), "Platform error: p");
}
