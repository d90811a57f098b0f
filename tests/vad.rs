use maestro_audio::pcm::decode_pcm_base64;
use maestro_audio::vad::{frame_is_speech, Source, VadAccumulator};

fn speech_frame() -> Vec<i16> {
    vec![3277; 1024]
}

fn silent_frame() -> Vec<i16> {
    vec![0; 1024]
}

#[test]
fn threshold_boundary() {
    assert!(frame_is_speech(&[164]));
    assert!(frame_is_speech(&[-164]));
    assert!(!frame_is_speech(&[163]));
    assert!(!frame_is_speech(&[]));
    assert!(!frame_is_speech(&[0; 1024]));
    assert!(frame_is_speech(&[0, 0, 0, 400]));
}

#[test]
fn silence_only_never_emits() {
    let mut vad = VadAccumulator::new(Source::Mic);
    for _ in 0..200 {
        assert!(vad.feed(&silent_frame()).is_none());
        assert!(vad.buffer.is_empty());
        assert!(!vad.is_speaking);
    }
}

#[test]
fn empty_frames_count_as_silence() {
    let mut vad = VadAccumulator::new(Source::Mic);
    assert!(vad.feed(&[]).is_none());
    assert!(vad.buffer.is_empty());
    for _ in 0..5 {
        vad.feed(&speech_frame());
    }
    for _ in 0..23 {
        assert!(vad.feed(&[]).is_none());
    }
    let chunk = vad.feed(&[]).unwrap();
    assert_eq!(chunk.sample_count, 5 * 1024);
}

#[test]
fn short_burst_is_discarded() {
    let mut vad = VadAccumulator::new(Source::Mic);
    for _ in 0..4 {
        assert!(vad.feed(&speech_frame()).is_none());
    }
    for _ in 0..40 {
        assert!(vad.feed(&silent_frame()).is_none());
    }
    assert!(vad.buffer.is_empty());
    assert!(!vad.is_speaking);
}

#[test]
fn long_burst_emits_one_chunk_with_silent_tail() {
    let mut vad = VadAccumulator::new(Source::Loopback);
    for _ in 0..5 {
        assert!(vad.feed(&speech_frame()).is_none());
    }
    let mut chunks = Vec::new();
    for _ in 0..50 {
        if let Some(c) = vad.feed(&silent_frame()) {
            chunks.push(c);
        }
    }
    assert_eq!(chunks.len(), 1);
    assert_eq!(chunks[0].sample_count, (5 + 24) * 1024);
    assert_eq!(chunks[0].source, Source::Loopback);
    assert!(vad.buffer.is_empty());
}

#[test]
fn six_speech_then_twenty_five_silent_frames() {
    let mut vad = VadAccumulator::new(Source::Mic);
    let mut chunks = Vec::new();
    for _ in 0..6 {
        if let Some(c) = vad.feed(&speech_frame()) {
            chunks.push(c);
        }
    }
    for _ in 0..25 {
        if let Some(c) = vad.feed(&silent_frame()) {
            chunks.push(c);
        }
    }
    assert_eq!(chunks.len(), 1);
    // the chunk ends with the silent frame that completes the silence run
    assert_eq!(chunks[0].sample_count, 30 * 1024);
    assert_eq!(chunks[0].source, Source::Mic);
    let samples = decode_pcm_base64(&chunks[0].audio_b64).unwrap();
    assert_eq!(samples.len(), 30 * 1024);
    assert!(samples[..6 * 1024].iter().all(|&s| s == 3277));
    assert!(samples[6 * 1024..].iter().all(|&s| s == 0));
}

#[test]
fn speech_resets_the_silence_run() {
    let mut vad = VadAccumulator::new(Source::Mic);
    for _ in 0..5 {
        vad.feed(&speech_frame());
    }
    for _ in 0..23 {
        assert!(vad.feed(&silent_frame()).is_none());
    }
    assert!(vad.feed(&speech_frame()).is_none());
    assert_eq!(vad.silence_counter, 0);
    for _ in 0..23 {
        assert!(vad.feed(&silent_frame()).is_none());
    }
    let chunk = vad.feed(&silent_frame()).unwrap();
    assert_eq!(chunk.sample_count, (5 + 23 + 1 + 24) * 1024);
}

#[test]
fn flush_needs_minimum_speech() {
    let mut vad = VadAccumulator::new(Source::Mic);
    vad.buffer = vec![1, 2, 3];
    vad.speech_counter = 4;
    assert!(vad.flush().is_none());
    assert!(vad.buffer.is_empty());
    vad.buffer = vec![1, 2, 3];
    vad.speech_counter = 5;
    let chunk = vad.flush().unwrap();
    assert_eq!(chunk.sample_count, 3);
    assert_eq!(chunk.audio_b64, "AQACAAMA");
    assert!(vad.buffer.is_empty());
}
