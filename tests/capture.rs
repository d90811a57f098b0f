use maestro_audio::capture::{
    drain_chunks, get_talk_ratio, process_frame, stop_capture, AudioCaptureState, CaptureError,
};
use maestro_audio::vad::{Source, VadAccumulator};

fn utterance(state: &mut AudioCaptureState, vad: &mut VadAccumulator) {
    for _ in 0..6 {
        process_frame(state, vad, &[3277; 1024], 1, 16000);
    }
    for _ in 0..25 {
        process_frame(state, vad, &[0; 1024], 1, 16000);
    }
}

#[test]
fn start_is_refused_while_running() {
    let mut state = AudioCaptureState::default();
    assert_eq!(state.check_can_start(), Ok(()));
    state.mark_running();
    assert_eq!(state.check_can_start(), Err(CaptureError::AlreadyRunning));
    stop_capture(&mut state);
    assert_eq!(state.check_can_start(), Ok(()));
}

#[test]
fn stopped_state_ignores_frames() {
    let mut state = AudioCaptureState::new();
    let mut vad = VadAccumulator::new(Source::Mic);
    utterance(&mut state, &mut vad);
    assert!(drain_chunks(&mut state).is_empty());
    assert_eq!(get_talk_ratio(&state), (0, 0));
    assert!(vad.buffer.is_empty());
}

#[test]
fn emitted_chunk_is_queued_and_credited() {
    let mut state = AudioCaptureState::new();
    state.mark_running();
    let mut vad = VadAccumulator::new(Source::Mic);
    utterance(&mut state, &mut vad);
    assert_eq!(get_talk_ratio(&state), (30 * 1024, 0));
    let chunks = drain_chunks(&mut state);
    assert_eq!(chunks.len(), 1);
    assert_eq!(chunks[0].source, Source::Mic);
    assert_eq!(chunks[0].sample_count, 30 * 1024);
    assert!(drain_chunks(&mut state).is_empty());
    assert_eq!(get_talk_ratio(&state), (30 * 1024, 0));
}

#[test]
fn two_streams_keep_whole_chunks_in_order() {
    let mut state = AudioCaptureState::new();
    state.mark_running();
    let mut mic = VadAccumulator::new(Source::Mic);
    let mut lb = VadAccumulator::new(Source::Loopback);
    for _ in 0..6 {
        process_frame(&mut state, &mut mic, &[3277; 1024], 1, 16000);
        process_frame(&mut state, &mut lb, &[-3277; 2048], 2, 16000);
    }
    for _ in 0..25 {
        process_frame(&mut state, &mut mic, &[0; 1024], 1, 16000);
        process_frame(&mut state, &mut lb, &[0; 2048], 2, 16000);
    }
    let chunks = drain_chunks(&mut state);
    assert_eq!(chunks.len(), 2);
    assert_eq!(chunks[0].source, Source::Mic);
    assert_eq!(chunks[1].source, Source::Loopback);
    assert_eq!(chunks[0].sample_count, 30 * 1024);
    assert_eq!(chunks[1].sample_count, 30 * 1024);
    assert_eq!(get_talk_ratio(&state), (30 * 1024, 30 * 1024));
}

#[test]
fn stop_then_drain_returns_earlier_chunks_only() {
    let mut state = AudioCaptureState::new();
    state.mark_running();
    let mut vad = VadAccumulator::new(Source::Mic);
    utterance(&mut state, &mut vad);
    stop_capture(&mut state);
    utterance(&mut state, &mut vad);
    let chunks = drain_chunks(&mut state);
    assert_eq!(chunks.len(), 1);
    utterance(&mut state, &mut vad);
    assert!(drain_chunks(&mut state).is_empty());
    stop_capture(&mut state);
    assert!(!state.running);
}

#[test]
fn resampled_frames_reach_the_segmenter() {
    let mut state = AudioCaptureState::new();
    state.mark_running();
    let mut vad = VadAccumulator::new(Source::Loopback);
    for _ in 0..5 {
        process_frame(&mut state, &mut vad, &[3277; 960 * 2], 2, 48000);
    }
    for _ in 0..24 {
        process_frame(&mut state, &mut vad, &[0; 960 * 2], 2, 48000);
    }
    let chunks = drain_chunks(&mut state);
    assert_eq!(chunks.len(), 1);
    assert_eq!(chunks[0].sample_count, 29 * 320);
    assert_eq!(get_talk_ratio(&state), (0, 29 * 320));
}
