//! Energy-based voice activity segmentation of normalised frames into
//! utterances.
use vstd::prelude::*;
use crate::normalize::TARGET_SAMPLE_RATE;
use crate::pcm::{base64_of, pcm_bytes, encode_pcm_base64};

verus! {

/// Consecutive silent frames after speech that end an utterance.
pub const VAD_SILENCE_FRAMES: usize = 24;

/// Speech frames an utterance needs to be emitted rather than discarded.
pub const VAD_MIN_SPEECH_FRAMES: usize = 5;

/// Full-scale magnitude of a 16-bit sample: the value that stands for 1.0.
pub const FULL_SCALE: u128 = 32767;

/// `1 / 0.005²`: a frame is speech when its RMS, in full-scale units, exceeds
/// 0.005, that is when `mean(s²) * THRESHOLD_INV_SQ > FULL_SCALE²`.
pub const THRESHOLD_INV_SQ: u128 = 40000;

/// Which physical stream a chunk comes from.
#[derive(Clone, Copy, Debug, PartialEq, Eq, Structural)]
pub enum Source {
    Mic,
    Loopback,
}

/// One emitted utterance: base64 of its little-endian 16-bit PCM, the stream
/// it came from, and its number of mono samples at the target rate (its
/// duration in seconds is `sample_count / 16000`).
#[derive(Clone, Debug)]
pub struct AudioChunk {
    pub audio_b64: String,
    pub source: Source,
    pub sample_count: usize,
}

/// `c` is the chunk that carries `samples` from `source`.
pub open spec fn is_chunk_of(c: AudioChunk, source: Source, samples: Seq<i16>) -> bool {
    &&& c.audio_b64@ == base64_of(pcm_bytes(samples))
    &&& c.source == source
    &&& c.sample_count == samples.len()
}

/// Sum of the squares of the samples.
pub open spec fn energy(s: Seq<i16>) -> int
    decreases s.len(),
{
    if s.len() == 0 {
        0
    } else {
        energy(s.drop_last()) + (s.last() as int) * (s.last() as int)
    }
}

/// A frame is speech when it is non-empty and its RMS exceeds the threshold;
/// an empty frame counts as silence.
pub open spec fn is_speech(s: Seq<i16>) -> bool {
    s.len() > 0 && THRESHOLD_INV_SQ * energy(s) > s.len() * FULL_SCALE * FULL_SCALE
}

/// `n + 1`, held at the largest counter value.
pub open spec fn bump(n: nat) -> nat {
    if n < usize::MAX {
        n + 1
    } else {
        n
    }
}

/// The segmenter's state: buffered samples, consecutive silent frames,
/// speech frames of the current utterance, and whether speech is under way.
pub struct VadView {
    pub buffer: Seq<i16>,
    pub silence: nat,
    pub speech: nat,
    pub speaking: bool,
}

/// The state before any frame.
pub open spec fn vad_start() -> VadView {
    VadView { buffer: seq![], silence: 0, speech: 0, speaking: false }
}

/// A state the segmenter can be in: idle means nothing buffered and no
/// speech counted; while speaking the silence run is below the end threshold.
pub open spec fn vad_wf(v: VadView) -> bool {
    &&& !v.speaking ==> v.buffer.len() == 0 && v.speech == 0
    &&& v.speaking ==> v.silence < VAD_SILENCE_FRAMES
    &&& v.speech <= usize::MAX
    &&& v.silence <= usize::MAX
}

/// One frame through the segmenter: the next state, and the samples of the
/// utterance it completes, if one is emitted.
pub open spec fn vad_step(v: VadView, frame: Seq<i16>) -> (VadView, Option<Seq<i16>>) {
    if is_speech(frame) {
        (VadView { buffer: v.buffer + frame, silence: 0, speech: bump(v.speech), speaking: true }, None)
    } else if v.speaking {
        let buf = v.buffer + frame;
        if v.silence + 1 >= VAD_SILENCE_FRAMES {
            (
                vad_start(),
                if v.speech >= VAD_MIN_SPEECH_FRAMES {
                    Some(buf)
                } else {
                    None
                },
            )
        } else {
            (VadView { buffer: buf, silence: v.silence + 1, speech: v.speech, speaking: true }, None)
        }
    } else {
        (VadView { buffer: v.buffer, silence: bump(v.silence), speech: v.speech, speaking: false }, None)
    }
}

/// Per-stream segmenter: accumulates speech and its tail, and hands out the
/// whole utterance once the silence after it is long enough.
pub struct VadAccumulator {
    pub source: Source,
    pub buffer: Vec<i16>,
    pub silence_counter: usize,
    pub speech_counter: usize,
    pub is_speaking: bool,
}

impl View for VadAccumulator {
    type V = VadView;

    open spec fn view(&self) -> VadView {
        VadView {
            buffer: self.buffer@,
            silence: self.silence_counter as nat,
            speech: self.speech_counter as nat,
            speaking: self.is_speaking,
        }
    }
}

/// Whether a frame is speech.
pub fn frame_is_speech(frame: &[i16]) -> (r: bool)
    ensures
        r == is_speech(frame@),
{
    let n: usize = frame.len();
    let mut acc: u128 = 0;
    let mut i: usize = 0;
    while i < n
        invariant
            n == frame@.len(),
            i <= n,
            acc == energy(frame@.subrange(0, i as int)),
            acc <= i * 0x4000_0000,
        decreases n - i,
    {
        proof {
            assert(frame@.subrange(0, i + 1).drop_last() =~= frame@.subrange(0, i as int));
        }
        let v: i64 = frame[i] as i64;
        proof {
            assert(0 <= v * v <= 0x4000_0000) by (nonlinear_arith)
                requires
                    -32768 <= v <= 32767,
            ;
        }
        let sq: u128 = (v * v) as u128;
        acc = acc + sq;
        i = i + 1;
    }
    assert(frame@.subrange(0, n as int) =~= frame@);
    if n == 0 {
        return false;
    }
    proof {
        assert(THRESHOLD_INV_SQ * acc <= 40000 * 0x1_0000_0000_0000_0000 * 0x4000_0000)
            by (nonlinear_arith)
            requires
                acc <= n * 0x4000_0000,
                n <= 0xffff_ffff_ffff_ffff,
        ;
    }
    THRESHOLD_INV_SQ * acc > (n as u128) * FULL_SCALE * FULL_SCALE
}

fn append_frame(buffer: &mut Vec<i16>, frame: &[i16])
    ensures
        final(buffer)@ == old(buffer)@ + frame@,
{
    let mut i: usize = 0;
    while i < frame.len()
        invariant
            i <= frame@.len(),
            buffer@ == old(buffer)@ + frame@.subrange(0, i as int),
        decreases frame@.len() - i,
    {
        buffer.push(frame[i]);
        i = i + 1;
        assert(buffer@ =~= old(buffer)@ + frame@.subrange(0, i as int));
    }
    assert(frame@.subrange(0, frame@.len() as int) =~= frame@);
}

impl VadAccumulator {
    /// A segmenter for `source` with nothing buffered.
    pub fn new(source: Source) -> (r: VadAccumulator)
        ensures
            r@ == vad_start(),
            r.source == source,
    {
        VadAccumulator {
            source,
            buffer: Vec::with_capacity(TARGET_SAMPLE_RATE as usize * 10),
            silence_counter: 0,
            speech_counter: 0,
            is_speaking: false,
        }
    }

    /// Feeds one normalised frame. Returns the completed utterance when this
    /// frame ends a long enough one; the state moves as `vad_step` says.
    pub fn feed(&mut self, frame: &[i16]) -> (r: Option<AudioChunk>)
        requires
            vad_wf(old(self)@),
        ensures
            vad_wf(final(self)@),
            final(self)@ == vad_step(old(self)@, frame@).0,
            final(self).source == old(self).source,
            vad_step(old(self)@, frame@).1 is None ==> r is None,
            vad_step(old(self)@, frame@).1 is Some ==> r is Some && is_chunk_of(
                r->0,
                old(self).source,
                vad_step(old(self)@, frame@).1->0,
            ),
    {
        let speech = frame_is_speech(frame);
        if speech {
            self.silence_counter = 0;
            self.speech_counter = self.speech_counter.saturating_add(1);
            self.is_speaking = true;
            append_frame(&mut self.buffer, frame);
            None
        } else if self.is_speaking {
            append_frame(&mut self.buffer, frame);
            self.silence_counter = self.silence_counter + 1;
            if self.silence_counter >= VAD_SILENCE_FRAMES {
                self.is_speaking = false;
                let chunk = self.flush();
                self.silence_counter = 0;
                self.speech_counter = 0;
                proof {
                    assert(self.buffer@ =~= Seq::<i16>::empty());
                }
                chunk
            } else {
                None
            }
        } else {
            self.silence_counter = self.silence_counter.saturating_add(1);
            None
        }
    }

    /// Ends the current utterance: the buffer is emptied, and its samples are
    /// emitted as a chunk when enough speech frames were counted.
    pub fn flush(&mut self) -> (r: Option<AudioChunk>)
        ensures
            final(self).buffer@ == Seq::<i16>::empty(),
            final(self).source == old(self).source,
            final(self).silence_counter == old(self).silence_counter,
            final(self).speech_counter == old(self).speech_counter,
            final(self).is_speaking == old(self).is_speaking,
            old(self).speech_counter < VAD_MIN_SPEECH_FRAMES ==> r is None,
            old(self).speech_counter >= VAD_MIN_SPEECH_FRAMES ==> r is Some && is_chunk_of(
                r->0,
                old(self).source,
                old(self).buffer@,
            ),
    {
        if self.speech_counter < VAD_MIN_SPEECH_FRAMES {
            self.buffer.clear();
            return None;
        }
        let sample_count = self.buffer.len();
        let audio_b64 = encode_pcm_base64(self.buffer.as_slice());
        self.buffer.clear();
        Some(AudioChunk { audio_b64, source: self.source, sample_count })
    }
}

/// The samples of a run of frames, back to back.
pub open spec fn flatten(fs: Seq<Seq<i16>>) -> Seq<i16>
    decreases fs.len(),
{
    if fs.len() == 0 {
        seq![]
    } else {
        flatten(fs.drop_last()) + fs.last()
    }
}

/// A run of frames through the segmenter: the final state and the samples
/// of each utterance emitted, in order.
pub open spec fn vad_run(v: VadView, fs: Seq<Seq<i16>>) -> (VadView, Seq<Seq<i16>>)
    decreases fs.len(),
{
    if fs.len() == 0 {
        (v, seq![])
    } else {
        let p = vad_run(v, fs.drop_last());
        let st = vad_step(p.0, fs.last());
        (
            st.0,
            match st.1 {
                Some(u) => p.1.push(u),
                None => p.1,
            },
        )
    }
}

/// `k`, held at the largest counter value.
pub open spec fn capped(k: nat) -> nat {
    if k <= usize::MAX {
        k
    } else {
        usize::MAX as nat
    }
}

/// Running two runs of frames one after the other is running them joined.
pub proof fn lemma_run_append(v: VadView, a: Seq<Seq<i16>>, b: Seq<Seq<i16>>)
    ensures
        vad_run(v, a + b).0 == vad_run(vad_run(v, a).0, b).0,
        vad_run(v, a + b).1 == vad_run(v, a).1 + vad_run(vad_run(v, a).0, b).1,
    decreases b.len(),
{
    if b.len() == 0 {
        assert(a + b =~= a);
        assert(vad_run(v, a).1 + vad_run(vad_run(v, a).0, b).1 =~= vad_run(v, a).1);
    } else {
        assert((a + b).drop_last() =~= a + b.drop_last());
        assert((a + b).last() == b.last());
        lemma_run_append(v, a, b.drop_last());
        let w = vad_run(v, a);
        let p = vad_run(w.0, b.drop_last());
        let st = vad_step(p.0, b.last());
        match st.1 {
            Some(u) => {
                assert(w.1 + p.1.push(u) =~= (w.1 + p.1).push(u));
            },
            None => {},
        }
    }
}

/// Silence alone never starts an utterance: from an idle state, silent
/// frames emit nothing and leave the segmenter idle with nothing buffered.
pub proof fn lemma_silence_stays_idle(v: VadView, fs: Seq<Seq<i16>>)
    requires
        vad_wf(v),
        !v.speaking,
        forall|i: int| 0 <= i < fs.len() ==> !is_speech(#[trigger] fs[i]),
    ensures
        vad_run(v, fs).1.len() == 0,
        !vad_run(v, fs).0.speaking,
        vad_run(v, fs).0.buffer.len() == 0,
        vad_run(v, fs).0.speech == 0,
    decreases fs.len(),
{
    if fs.len() > 0 {
        assert(!is_speech(fs[fs.len() - 1]));
        lemma_silence_stays_idle(v, fs.drop_last());
    }
}

proof fn lemma_speech_run(fs: Seq<Seq<i16>>)
    requires
        fs.len() > 0,
        forall|i: int| 0 <= i < fs.len() ==> is_speech(#[trigger] fs[i]),
    ensures
        vad_run(vad_start(), fs).1.len() == 0,
        vad_run(vad_start(), fs).0 == (VadView {
            buffer: flatten(fs),
            silence: 0,
            speech: capped(fs.len()),
            speaking: true,
        }),
    decreases fs.len(),
{
    let fp = fs.drop_last();
    assert(is_speech(fs.last()));
    if fs.len() == 1 {
        assert(fp =~= Seq::<Seq<i16>>::empty());
        assert(vad_run(vad_start(), fp) == (vad_start(), Seq::<Seq<i16>>::empty()));
        assert(flatten(fp) =~= Seq::<i16>::empty());
        assert(Seq::<i16>::empty() + fs.last() =~= fs.last());
        assert(flatten(fs) =~= fs.last());
    } else {
        assert forall|i: int| 0 <= i < fp.len() implies is_speech(#[trigger] fp[i]) by {
            assert(fp[i] == fs[i]);
        }
        lemma_speech_run(fp);
    }
}

proof fn lemma_quiet_run(v: VadView, fs: Seq<Seq<i16>>)
    requires
        vad_wf(v),
        v.speaking,
        forall|i: int| 0 <= i < fs.len() ==> !is_speech(#[trigger] fs[i]),
    ensures
        v.silence + fs.len() < VAD_SILENCE_FRAMES ==> vad_run(v, fs).1.len() == 0 && vad_run(
            v,
            fs,
        ).0 == (VadView {
            buffer: v.buffer + flatten(fs),
            silence: v.silence + fs.len(),
            speech: v.speech,
            speaking: true,
        }),
        v.silence + fs.len() >= VAD_SILENCE_FRAMES ==> {
            &&& !vad_run(v, fs).0.speaking
            &&& vad_run(v, fs).0.buffer.len() == 0
            &&& vad_run(v, fs).0.speech == 0
            &&& vad_run(v, fs).1 == if v.speech >= VAD_MIN_SPEECH_FRAMES {
                seq![v.buffer + flatten(fs.take(VAD_SILENCE_FRAMES - v.silence))]
            } else {
                Seq::<Seq<i16>>::empty()
            }
        },
    decreases fs.len(),
{
    if fs.len() == 0 {
        assert(v.buffer + flatten(fs) =~= v.buffer);
    } else {
        let fp = fs.drop_last();
        assert(!is_speech(fs[fs.len() - 1]));
        lemma_quiet_run(v, fp);
        if v.silence + fp.len() < VAD_SILENCE_FRAMES {
            assert(v.buffer + flatten(fp) + fs.last() =~= v.buffer + flatten(fs));
            if v.silence + fs.len() >= VAD_SILENCE_FRAMES {
                assert(fs.take(VAD_SILENCE_FRAMES - v.silence) =~= fs);
            }
        } else {
            assert(fs.take(VAD_SILENCE_FRAMES - v.silence) =~= fp.take(VAD_SILENCE_FRAMES - v.silence));
        }
    }
}

/// A burst of fewer than the minimum number of speech frames, followed by
/// at least the ending run of silence, is dropped: nothing is emitted and the
/// segmenter ends idle with nothing buffered.
pub proof fn lemma_short_burst_discarded(speech: Seq<Seq<i16>>, silence: Seq<Seq<i16>>)
    requires
        speech.len() < VAD_MIN_SPEECH_FRAMES,
        silence.len() >= VAD_SILENCE_FRAMES,
        forall|i: int| 0 <= i < speech.len() ==> is_speech(#[trigger] speech[i]),
        forall|i: int| 0 <= i < silence.len() ==> !is_speech(#[trigger] silence[i]),
    ensures
        vad_run(vad_start(), speech + silence).1.len() == 0,
        !vad_run(vad_start(), speech + silence).0.speaking,
        vad_run(vad_start(), speech + silence).0.buffer.len() == 0,
{
    lemma_run_append(vad_start(), speech, silence);
    if speech.len() == 0 {
        assert(vad_run(vad_start(), speech).0 == vad_start());
        lemma_silence_stays_idle(vad_start(), silence);
    } else {
        lemma_speech_run(speech);
        lemma_quiet_run(vad_run(vad_start(), speech).0, silence);
    }
}

/// A burst of at least the minimum number of speech frames, followed by at
/// least the ending run of silence, emits exactly one utterance: the speech
/// and the silent frames up to and including the one that ends it. The
/// segmenter ends idle with nothing buffered.
pub proof fn lemma_long_burst_emits_once(speech: Seq<Seq<i16>>, silence: Seq<Seq<i16>>)
    requires
        speech.len() >= VAD_MIN_SPEECH_FRAMES,
        silence.len() >= VAD_SILENCE_FRAMES,
        forall|i: int| 0 <= i < speech.len() ==> is_speech(#[trigger] speech[i]),
        forall|i: int| 0 <= i < silence.len() ==> !is_speech(#[trigger] silence[i]),
    ensures
        vad_run(vad_start(), speech + silence).1 == seq![
            flatten(speech) + flatten(silence.take(VAD_SILENCE_FRAMES as int)),
        ],
        !vad_run(vad_start(), speech + silence).0.speaking,
        vad_run(vad_start(), speech + silence).0.buffer.len() == 0,
{
    lemma_run_append(vad_start(), speech, silence);
    lemma_speech_run(speech);
    let w = vad_run(vad_start(), speech);
    lemma_quiet_run(w.0, silence);
    assert(w.1 + vad_run(w.0, silence).1 =~= vad_run(w.0, silence).1);
}

} // verus!
