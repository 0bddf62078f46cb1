use anytalk::audio::{
    convert_u16_sample, convert_u16_samples, i16_to_le_bytes, mix_to_mono, push_samples,
    StreamingResampler,
};

#[test]
fn u16_samples_are_recentred() {
    assert_eq!(convert_u16_sample(0), -32768);
    assert_eq!(convert_u16_sample(32768), 0);
    assert_eq!(convert_u16_sample(65535), 32767);
    let v = convert_u16_samples(&[0, 32768, 65535]);
    assert_eq!(v, vec![-32768, 0, 32767]);
}

#[test]
fn downmix_averages_frames() {
    // Stereo: each frame averaged, truncated toward zero.
    let mono = mix_to_mono(&[10, 20, -5, -6, 7, 0], 2);
    assert_eq!(mono, vec![15, -5, 3]);
    // Mono passes through.
    let same = mix_to_mono(&[1, 2, 3], 1);
    assert_eq!(same, vec![1, 2, 3]);
    // A short trailing frame is averaged over its own length.
    let tail = mix_to_mono(&[9, 9, 9, 4], 3);
    assert_eq!(tail, vec![9, 4]);
}

#[test]
fn le_bytes_are_little_endian() {
    let bytes = i16_to_le_bytes(&[0x0102, -2]);
    assert_eq!(bytes, vec![0x02, 0x01, 0xFE, 0xFF]);
}

#[test]
fn resampler_passthrough_same_rate() {
    let mut r = StreamingResampler::new(16000, 16000);
    let input = vec![1i16, -2, 3, -4];
    let out = r.process(&input);
    assert_eq!(out, input);
    // State untouched: a second call still passes through.
    let out2 = r.process(&input);
    assert_eq!(out2, input);
}

#[test]
fn resampler_empty_input_is_identity() {
    let mut r = StreamingResampler::new(48000, 16000);
    let out = r.process(&[]);
    assert!(out.is_empty());
    // Feeding real samples afterwards behaves as if the empty call never
    // happened.
    let a = r.process(&[100, 200, 300, 400, 500, 600, 700]);
    let mut r2 = StreamingResampler::new(48000, 16000);
    let b = r2.process(&[100, 200, 300, 400, 500, 600, 700]);
    assert_eq!(a, b);
}

#[test]
fn resampler_downsamples_by_three() {
    // 48 kHz to 16 kHz reads every third sample exactly.
    let mut r = StreamingResampler::new(48000, 16000);
    let input: Vec<i16> = (0..30).map(|i| (i * 10) as i16).collect();
    let out = r.process(&input);
    assert_eq!(out, vec![0, 30, 60, 90, 120, 150, 180, 210, 240, 270]);
}

#[test]
fn resampler_split_equals_whole() {
    // Continuity: processing a stream in two pieces gives exactly the same
    // samples as processing it at once, wherever the cut falls.
    let input: Vec<i16> = (0..50).map(|i| ((i * 37) % 1000 - 500) as i16).collect();
    for cut in [0usize, 1, 7, 25, 49, 50] {
        let mut whole = StreamingResampler::new(44100, 16000);
        let expected = whole.process(&input);

        let mut split = StreamingResampler::new(44100, 16000);
        let mut got = split.process(&input[..cut]);
        got.extend(split.process(&input[cut..]));
        assert_eq!(got, expected, "cut at {cut}");
    }
}

#[test]
fn resampler_upsampling_interpolates() {
    // 8 kHz to 16 kHz: midpoints appear between the input samples.
    let mut r = StreamingResampler::new(8000, 16000);
    let out = r.process(&[0, 100, 200]);
    assert_eq!(out, vec![0, 50, 100, 150]);
}

#[test]
fn resampler_cumulative_length_tracks_ratio() {
    // Feeding n samples total, the cumulative output stays within one step
    // of n * out_rate / in_rate.
    let mut r = StreamingResampler::new(48000, 16000);
    let mut total_in: usize = 0;
    let mut total_out: usize = 0;
    for block in 0..60 {
        let n = 97 + (block % 13);
        let input: Vec<i16> = (0..n).map(|i| (i as i16).wrapping_mul(3)).collect();
        total_in += n;
        total_out += r.process(&input).len();
    }
    let expected = (total_in as f64 * 16000.0 / 48000.0).round() as isize;
    assert!((total_out as isize - expected).abs() <= 1, "{total_out} vs {expected}");
}

#[test]
fn push_samples_chunks_exactly() {
    let mut buffer: Vec<i16> = Vec::new();
    let mut r = StreamingResampler::new(16000, 16000);
    // 5 mono samples per push, chunks of 4 samples (8 bytes each).
    let chunks = push_samples(&mut buffer, &mut r, 1, &[1, 2, 3, 4, 5], 4);
    assert_eq!(chunks.len(), 1);
    assert_eq!(chunks[0], i16_to_le_bytes(&[1, 2, 3, 4]));
    assert_eq!(buffer, vec![5]);

    let chunks = push_samples(&mut buffer, &mut r, 1, &[6, 7, 8, 9, 10, 11, 12], 4);
    assert_eq!(chunks.len(), 2);
    assert_eq!(chunks[0], i16_to_le_bytes(&[5, 6, 7, 8]));
    assert_eq!(chunks[1], i16_to_le_bytes(&[9, 10, 11, 12]));
    assert_eq!(buffer, Vec::<i16>::new());
}

#[test]
fn push_samples_empty_input_is_no_op() {
    let mut buffer: Vec<i16> = vec![1, 2, 3];
    let mut r = StreamingResampler::new(48000, 16000);
    let chunks = push_samples(&mut buffer, &mut r, 2, &[], 4);
    assert!(chunks.is_empty());
    assert_eq!(buffer, vec![1, 2, 3]);
}
