//! Shared capture state: the running flag, the queue of emitted chunks and
//! the cumulative speech per stream, with the per-frame coordinator step that
//! the audio callbacks run and the operations the consumer calls.
use vstd::prelude::*;
use crate::normalize::{TARGET_SAMPLE_RATE, normalized, resampled_len, to_mono_16k};
use crate::vad::{AudioChunk, Source, VadAccumulator, is_chunk_of, vad_step, vad_wf};

verus! {

/// Why a capture session could not start.
#[derive(Clone, Copy, Debug, PartialEq, Eq, Structural)]
pub enum CaptureError {
    AlreadyRunning,
}

/// The state both capture streams feed and the consumer drains. Speech is
/// counted in mono samples at the target rate: seconds are samples / 16000.
pub struct AudioCaptureState {
    pub running: bool,
    pub chunks: Vec<AudioChunk>,
    pub mic_speech_samples: u64,
    pub loopback_speech_samples: u64,
}

/// The capture state as values.
pub struct CaptureView {
    pub running: bool,
    pub chunks: Seq<AudioChunk>,
    pub mic: nat,
    pub loopback: nat,
}

impl View for AudioCaptureState {
    type V = CaptureView;

    open spec fn view(&self) -> CaptureView {
        CaptureView {
            running: self.running,
            chunks: self.chunks@,
            mic: self.mic_speech_samples as nat,
            loopback: self.loopback_speech_samples as nat,
        }
    }
}

/// `a + b`, held at the largest `u64`.
pub open spec fn sat_add(a: nat, b: nat) -> nat {
    if a + b <= u64::MAX {
        a + b
    } else {
        u64::MAX as nat
    }
}

/// The state after `c` is queued and its samples credited to its stream.
pub open spec fn with_chunk(s: CaptureView, c: AudioChunk) -> CaptureView {
    CaptureView {
        running: s.running,
        chunks: s.chunks.push(c),
        mic: if c.source == Source::Mic {
            sat_add(s.mic, c.sample_count as nat)
        } else {
            s.mic
        },
        loopback: if c.source == Source::Loopback {
            sat_add(s.loopback, c.sample_count as nat)
        } else {
            s.loopback
        },
    }
}

/// What one frame does to the shared state: nothing unless capture is running
/// and the segmenter emitted; then the chunk `c` is queued and credited.
pub open spec fn frame_effect(s: CaptureView, emitted: bool, c: AudioChunk) -> CaptureView {
    if s.running && emitted {
        with_chunk(s, c)
    } else {
        s
    }
}

/// A chunk is whole: its text is the PCM of exactly `sample_count` samples.
pub open spec fn is_whole(c: AudioChunk) -> bool {
    exists|samples: Seq<i16>| is_chunk_of(c, c.source, samples)
}

/// Every chunk of a queue is whole.
pub open spec fn all_whole(q: Seq<AudioChunk>) -> bool {
    forall|i: int| 0 <= i < q.len() ==> is_whole(#[trigger] q[i])
}

/// The state after a stop request.
pub open spec fn stopped(s: CaptureView) -> CaptureView {
    CaptureView { running: false, ..s }
}

/// The state after the queue is drained.
pub open spec fn drained(s: CaptureView) -> CaptureView {
    CaptureView { chunks: seq![], ..s }
}

/// A run of frames, each given by whether it emitted and the chunk it would
/// queue, applied in order.
pub open spec fn frames_effect(s: CaptureView, fs: Seq<(bool, AudioChunk)>) -> CaptureView
    decreases fs.len(),
{
    if fs.len() == 0 {
        s
    } else {
        frame_effect(frames_effect(s, fs.drop_last()), fs.last().0, fs.last().1)
    }
}

impl AudioCaptureState {
    /// Not running, nothing queued, no speech counted.
    pub fn new() -> (r: AudioCaptureState)
        ensures
            all_whole(r@.chunks),
            !r@.running,
            r@.chunks.len() == 0,
            r@.mic == 0,
            r@.loopback == 0,
    {
        AudioCaptureState {
            running: false,
            chunks: Vec::new(),
            mic_speech_samples: 0,
            loopback_speech_samples: 0,
        }
    }

    /// Whether a session may start: refused while one is running.
    pub fn check_can_start(&self) -> (r: Result<(), CaptureError>)
        ensures
            r is Ok <==> !self.running,
            r is Err ==> r->Err_0 == CaptureError::AlreadyRunning,
    {
        if self.running {
            Err(CaptureError::AlreadyRunning)
        } else {
            Ok(())
        }
    }

    /// Marks the session running, once both streams are built.
    pub fn mark_running(&mut self)
        ensures
            final(self)@ == (CaptureView { running: true, ..old(self)@ }),
    {
        self.running = true;
    }
}

impl Default for AudioCaptureState {
    fn default() -> (r: AudioCaptureState)
        ensures
            !r@.running,
            r@.chunks.len() == 0,
            r@.mic == 0,
            r@.loopback == 0,
    {
        AudioCaptureState::new()
    }
}

/// Queues a chunk and credits its samples to its stream.
fn record_chunk(state: &mut AudioCaptureState, chunk: AudioChunk)
    ensures
        final(state)@ == with_chunk(old(state)@, chunk),
{
    let n: u64 = chunk.sample_count as u64;
    match chunk.source {
        Source::Mic => {
            state.mic_speech_samples = state.mic_speech_samples.saturating_add(n);
        },
        Source::Loopback => {
            state.loopback_speech_samples = state.loopback_speech_samples.saturating_add(n);
        },
    }
    state.chunks.push(chunk);
}

/// One hardware callback's frame: nothing while capture is stopped; otherwise
/// the frame is normalised and fed to the stream's segmenter, and a chunk it
/// emits is queued and credited to its stream.
pub fn process_frame(
    state: &mut AudioCaptureState,
    vad: &mut VadAccumulator,
    input: &[i16],
    channels: u16,
    input_rate: u32,
)
    requires
        vad_wf(old(vad)@),
        channels > 0,
        input_rate > 0,
        input_rate == TARGET_SAMPLE_RATE || resampled_len(
            input@.len() as int / (channels as int),
            input_rate as int,
        ) <= usize::MAX,
    ensures
        vad_wf(final(vad)@),
        final(vad).source == old(vad).source,
        !old(state).running ==> final(vad)@ == old(vad)@ && final(state)@ == old(state)@,
        old(state).running ==> final(vad)@ == vad_step(
            old(vad)@,
            normalized(input@, channels as int, input_rate as int),
        ).0,
        all_whole(old(state)@.chunks) ==> all_whole(final(state)@.chunks),
        ({
            let emitted = vad_step(old(vad)@, normalized(input@, channels as int, input_rate as int)).1;
            &&& final(state)@ == frame_effect(
                old(state)@,
                emitted is Some,
                final(state)@.chunks.last(),
            )
            &&& old(state).running && emitted is Some ==> is_chunk_of(
                final(state)@.chunks.last(),
                old(vad).source,
                emitted->0,
            )
        }),
{
    if !state.running {
        return;
    }
    let mono = to_mono_16k(input, channels, input_rate);
    let out = vad.feed(mono.as_slice());
    match out {
        Some(chunk) => {
            let ghost q = state.chunks@;
            record_chunk(state, chunk);
            proof {
                let e = vad_step(
                    old(vad)@,
                    normalized(input@, channels as int, input_rate as int),
                ).1->0;
                assert(is_chunk_of(state.chunks@.last(), state.chunks@.last().source, e));
                assert forall|i: int| 0 <= i < state.chunks@.len() && all_whole(q) implies is_whole(
                    #[trigger] state.chunks@[i],
                ) by {
                    if i < q.len() {
                        assert(state.chunks@[i] == q[i]);
                    }
                }
            }
        },
        None => {},
    }
}

/// Stops capture: frames arriving afterwards are ignored. Idempotent.
pub fn stop_capture(state: &mut AudioCaptureState)
    ensures
        final(state)@ == stopped(old(state)@),
{
    state.running = false;
}

/// Hands out every queued chunk in queue order and leaves the queue empty.
pub fn drain_chunks(state: &mut AudioCaptureState) -> (r: Vec<AudioChunk>)
    ensures
        r@ == old(state)@.chunks,
        final(state)@ == drained(old(state)@),
        all_whole(old(state)@.chunks) ==> all_whole(r@),
{
    let mut out: Vec<AudioChunk> = Vec::new();
    std::mem::swap(&mut out, &mut state.chunks);
    out
}

/// Cumulative speech of the microphone and of the loopback stream, in
/// samples at the target rate; the counters are left as they are.
pub fn get_talk_ratio(state: &AudioCaptureState) -> (r: (u64, u64))
    ensures
        r.0 == state@.mic,
        r.1 == state@.loopback,
{
    (state.mic_speech_samples, state.loopback_speech_samples)
}

/// While capture is stopped, frames leave the shared state as it is.
pub proof fn lemma_stopped_ignores_frames(s: CaptureView, fs: Seq<(bool, AudioChunk)>)
    requires
        !s.running,
    ensures
        frames_effect(s, fs) == s,
    decreases fs.len(),
{
    if fs.len() > 0 {
        lemma_stopped_ignores_frames(s, fs.drop_last());
    }
}

/// A stop followed by a drain hands out exactly the chunks queued before the
/// stop, even if stale callbacks deliver frames in between; and no chunk is
/// queued afterwards, whatever frames still arrive.
pub proof fn lemma_stop_then_drain(
    s: CaptureView,
    stale: Seq<(bool, AudioChunk)>,
    later: Seq<(bool, AudioChunk)>,
)
    ensures
        frames_effect(stopped(s), stale).chunks == s.chunks,
        frames_effect(drained(frames_effect(stopped(s), stale)), later).chunks.len() == 0,
{
    lemma_stopped_ignores_frames(stopped(s), stale);
    lemma_stopped_ignores_frames(drained(stopped(s)), later);
}

/// Frames that emit no chunk leave the queue and both speech counters as
/// they are, running or not.
pub proof fn lemma_silent_frames_credit_nothing(s: CaptureView, fs: Seq<(bool, AudioChunk)>)
    requires
        forall|i: int| 0 <= i < fs.len() ==> !(#[trigger] fs[i]).0,
    ensures
        frames_effect(s, fs) == s,
    decreases fs.len(),
{
    if fs.len() > 0 {
        assert(!fs[fs.len() - 1].0);
        lemma_silent_frames_credit_nothing(s, fs.drop_last());
    }
}

} // verus!
