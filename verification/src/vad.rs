//! Splitting live microphone audio into utterances.
//!
//! Each captured chunk, once mixed to mono and resampled to 16 kHz, is
//! classed as loud or quiet by its RMS energy (a float computation done by
//! the caller).  The detector below decides, chunk by chunk, what to do
//! with the samples; the caller keeps the samples themselves.  Speech
//! starts with a loud chunk; after it, every chunk is kept until
//! `SILENCE_CHUNKS_TO_END` quiet chunks in a row end the utterance, which
//! is handed on when it holds at least `MIN_SPEECH_SAMPLES` samples and
//! dropped as noise otherwise.
use vstd::prelude::*;

verus! {

/// The sample rate the speech model expects.
pub const WHISPER_SAMPLE_RATE: u32 = 16_000;

/// Quiet chunks in a row that end an utterance (about half a second).
pub const SILENCE_CHUNKS_TO_END: usize = 16;

/// The fewest samples an utterance must hold to be transcribed (0.5 s).
pub const MIN_SPEECH_SAMPLES: usize = 8_000;

/// What the caller does with a chunk's samples.
#[derive(Debug, Clone, Copy, PartialEq, Eq, Structural)]
pub enum VadAction {
    /// Not in an utterance: drop the chunk.
    Ignore,
    /// Append the chunk to the utterance buffer.
    Append,
    /// Append the chunk, hand the whole buffer on, then clear it.
    AppendAndEmit,
    /// The utterance ended too short: clear the buffer.
    Discard,
}

/// The detector's state between chunks.
#[derive(Debug, Clone, Copy, PartialEq, Eq, Structural)]
pub struct SpeechDetector {
    /// Whether an utterance is in progress.
    pub is_speaking: bool,
    /// Quiet chunks seen in a row since the last loud one.
    pub silence_chunk_count: usize,
    /// Samples buffered for the utterance in progress.
    pub buffered: usize,
}

impl SpeechDetector {
    /// Outside an utterance nothing is buffered or counted, and an
    /// utterance in progress has seen fewer quiet chunks than end one.
    pub open spec fn wf(&self) -> bool {
        &&& !self.is_speaking ==> self.silence_chunk_count == 0 && self.buffered == 0
        &&& self.silence_chunk_count < SILENCE_CHUNKS_TO_END
    }

    /// The detector before any audio.
    pub fn new() -> (r: Self)
        ensures
            r.wf(),
            !r.is_speaking,
    {
        SpeechDetector { is_speaking: false, silence_chunk_count: 0, buffered: 0 }
    }

    /// The state after a chunk of `len` samples, and what to do with it.
    pub open spec fn next(self, loud: bool, len: nat) -> (Self, VadAction) {
        if loud {
            (
                SpeechDetector {
                    is_speaking: true,
                    silence_chunk_count: 0,
                    buffered: (self.buffered + len) as usize,
                },
                VadAction::Append,
            )
        } else if !self.is_speaking {
            (self, VadAction::Ignore)
        } else if self.silence_chunk_count + 1 < SILENCE_CHUNKS_TO_END {
            (
                SpeechDetector {
                    is_speaking: true,
                    silence_chunk_count: (self.silence_chunk_count + 1) as usize,
                    buffered: (self.buffered + len) as usize,
                },
                VadAction::Append,
            )
        } else {
            (
                SpeechDetector { is_speaking: false, silence_chunk_count: 0, buffered: 0 },
                if self.buffered + len >= MIN_SPEECH_SAMPLES {
                    VadAction::AppendAndEmit
                } else {
                    VadAction::Discard
                },
            )
        }
    }

    /// Takes in a chunk of `len` samples, loud or quiet, and says what to do
    /// with it.  An utterance that is handed on holds the samples buffered
    /// so far plus this chunk, and that is at least `MIN_SPEECH_SAMPLES`.
    pub fn on_chunk(&mut self, loud: bool, len: usize) -> (a: VadAction)
        requires
            old(self).wf(),
            old(self).buffered + len <= usize::MAX,
        ensures
            final(self).wf(),
            (*final(self), a) == old(self).next(loud, len as nat),
            a == VadAction::AppendAndEmit ==> old(self).buffered + len >= MIN_SPEECH_SAMPLES,
            loud ==> a == VadAction::Append && final(self).is_speaking
                && final(self).silence_chunk_count == 0
                && final(self).buffered == old(self).buffered + len,
            !loud && !old(self).is_speaking ==> a == VadAction::Ignore && *final(self) == *old(self),
            !loud && old(self).is_speaking && old(self).silence_chunk_count + 1
                < SILENCE_CHUNKS_TO_END ==> a == VadAction::Append && final(self).is_speaking
                && final(self).silence_chunk_count == old(self).silence_chunk_count + 1
                && final(self).buffered == old(self).buffered + len,
            !loud && old(self).is_speaking && old(self).silence_chunk_count + 1
                == SILENCE_CHUNKS_TO_END ==> !final(self).is_speaking && final(self).buffered == 0
                && (a == VadAction::AppendAndEmit <==> old(self).buffered + len >= MIN_SPEECH_SAMPLES)
                && (a == VadAction::Discard <==> old(self).buffered + len < MIN_SPEECH_SAMPLES),
    {
        if loud {
            self.is_speaking = true;
            self.silence_chunk_count = 0;
            self.buffered = self.buffered + len;
            VadAction::Append
        } else if !self.is_speaking {
            VadAction::Ignore
        } else {
            self.buffered = self.buffered + len;
            self.silence_chunk_count = self.silence_chunk_count + 1;
            if self.silence_chunk_count >= SILENCE_CHUNKS_TO_END {
                let emit = self.buffered >= MIN_SPEECH_SAMPLES;
                self.is_speaking = false;
                self.silence_chunk_count = 0;
                self.buffered = 0;
                if emit {
                    VadAction::AppendAndEmit
                } else {
                    VadAction::Discard
                }
            } else {
                VadAction::Append
            }
        }
    }
}

/// How an utterance ends: on the quiet chunk that completes a run of
/// `SILENCE_CHUNKS_TO_END`, the utterance (the samples buffered plus this
/// chunk) is handed on exactly when it holds at least `MIN_SPEECH_SAMPLES`
/// samples, however long it is, and dropped exactly when it is shorter;
/// either way the detector is idle again with nothing buffered.
pub proof fn lemma_utterance_end(s: SpeechDetector, len: nat)
    requires
        s.wf(),
        s.is_speaking,
        s.silence_chunk_count + 1 == SILENCE_CHUNKS_TO_END,
    ensures
        s.next(false, len).1 == VadAction::AppendAndEmit <==> s.buffered + len >= MIN_SPEECH_SAMPLES,
        s.next(false, len).1 == VadAction::Discard <==> s.buffered + len < MIN_SPEECH_SAMPLES,
        !s.next(false, len).0.is_speaking,
        s.next(false, len).0.buffered == 0,
        s.next(false, len).0.silence_chunk_count == 0,
{
}

/// Inside an utterance every chunk before the ending run is kept: a loud
/// chunk, or a quiet one that does not complete the run, is appended and
/// adds its samples to the buffer; a loud chunk restarts the count of
/// quiet ones.
pub proof fn lemma_chunks_are_kept(s: SpeechDetector, loud: bool, len: nat)
    requires
        s.wf(),
        loud || (s.is_speaking && s.silence_chunk_count + 1 < SILENCE_CHUNKS_TO_END),
        s.buffered + len <= usize::MAX,
    ensures
        s.next(loud, len).1 == VadAction::Append,
        s.next(loud, len).0.is_speaking,
        s.next(loud, len).0.buffered == s.buffered + len,
        s.next(loud, len).0.silence_chunk_count == if loud {
            0
        } else {
            s.silence_chunk_count + 1
        },
{
}

/// The detector after `n` quiet chunks of `len` samples each.
pub open spec fn after_quiet(s: SpeechDetector, n: nat, len: nat) -> SpeechDetector
    decreases n,
{
    if n == 0 {
        s
    } else {
        after_quiet(s.next(false, len).0, (n - 1) as nat, len)
    }
}

/// Once `SILENCE_CHUNKS_TO_END` quiet chunks have come in a row, no
/// utterance is in progress any more, whatever the state before them.
pub proof fn lemma_silence_ends_utterance(s: SpeechDetector, len: nat)
    requires
        s.wf(),
        s.buffered + SILENCE_CHUNKS_TO_END * len <= usize::MAX,
    ensures
        !after_quiet(s, SILENCE_CHUNKS_TO_END as nat, len).is_speaking,
{
    lemma_quiet_run(s, SILENCE_CHUNKS_TO_END as nat, len);
}

proof fn lemma_quiet_run(s: SpeechDetector, n: nat, len: nat)
    requires
        s.wf(),
        s.buffered + n * len <= usize::MAX,
        n + s.silence_chunk_count >= SILENCE_CHUNKS_TO_END || !s.is_speaking,
    ensures
        !after_quiet(s, n, len).is_speaking,
    decreases n,
{
    if n > 0 {
        let t = s.next(false, len).0;
        assert(len <= n * len) by (nonlinear_arith)
            requires
                n >= 1,
        ;
        if s.is_speaking && s.silence_chunk_count + 1 < SILENCE_CHUNKS_TO_END {
            assert(t.buffered == s.buffered + len);
            assert((n - 1) * len + len == n * len) by (nonlinear_arith);
        }
        assert((n - 1) * len <= n * len) by (nonlinear_arith);
        lemma_quiet_run(t, (n - 1) as nat, len);
    }
}


/// The detector after `n` loud chunks of `len` samples each.
pub open spec fn after_loud(s: SpeechDetector, n: nat, len: nat) -> SpeechDetector
    decreases n,
{
    if n == 0 {
        s
    } else {
        after_loud(s.next(true, len).0, (n - 1) as nat, len)
    }
}

/// Loud chunks from an idle detector start an utterance holding all of them.
proof fn lemma_loud_run(s: SpeechDetector, n: nat, len: nat)
    requires
        s.wf(),
        s.is_speaking || n >= 1,
        s.silence_chunk_count == 0,
        s.buffered + n * len <= usize::MAX,
    ensures
        after_loud(s, n, len) == (SpeechDetector {
            is_speaking: true,
            silence_chunk_count: 0,
            buffered: (s.buffered + n * len) as usize,
        }),
    decreases n,
{
    if n > 0 {
        let t = s.next(true, len).0;
        assert(len <= n * len) by (nonlinear_arith)
            requires
                n >= 1,
        ;
        assert((n - 1) * len + len == n * len) by (nonlinear_arith);
        assert(t.buffered == s.buffered + len);
        lemma_loud_run(t, (n - 1) as nat, len);
        assert(after_loud(s, n, len) == after_loud(t, (n - 1) as nat, len));
        assert(t.buffered + (n - 1) * len == s.buffered + n * len);
    } else {
        assert(n * len == 0) by (nonlinear_arith)
            requires
                n == 0,
        ;
    }
}

/// Quiet chunks that do not complete the ending run are buffered and counted.
proof fn lemma_quiet_kept(s: SpeechDetector, n: nat, len: nat)
    requires
        s.wf(),
        s.is_speaking,
        s.silence_chunk_count + n < SILENCE_CHUNKS_TO_END,
        s.buffered + n * len <= usize::MAX,
    ensures
        after_quiet(s, n, len) == (SpeechDetector {
            is_speaking: true,
            silence_chunk_count: (s.silence_chunk_count + n) as usize,
            buffered: (s.buffered + n * len) as usize,
        }),
    decreases n,
{
    if n > 0 {
        let t = s.next(false, len).0;
        assert(len <= n * len) by (nonlinear_arith)
            requires
                n >= 1,
        ;
        assert((n - 1) * len + len == n * len) by (nonlinear_arith);
        assert(t.buffered == s.buffered + len);
        assert(t.silence_chunk_count == s.silence_chunk_count + 1);
        lemma_quiet_kept(t, (n - 1) as nat, len);
        assert(after_quiet(s, n, len) == after_quiet(t, (n - 1) as nat, len));
        assert(t.buffered + (n - 1) * len == s.buffered + n * len);
    } else {
        assert(n * len == 0) by (nonlinear_arith)
            requires
                n == 0,
        ;
    }
}

/// A whole utterance, from an idle detector: `k` loud chunks, then quiet
/// ones, all of `len` samples.  The quiet chunk that completes the ending
/// run hands the utterance on exactly when all `k + SILENCE_CHUNKS_TO_END`
/// chunks together hold at least `MIN_SPEECH_SAMPLES` samples, and drops it
/// otherwise; long utterances are never dropped.
pub proof fn lemma_spoken_then_silent(k: nat, len: nat)
    requires
        k >= 1,
        (k + SILENCE_CHUNKS_TO_END) * len <= usize::MAX,
    ensures
        ({
            let idle = SpeechDetector { is_speaking: false, silence_chunk_count: 0, buffered: 0 };
            let before = after_quiet(after_loud(idle, k, len), (SILENCE_CHUNKS_TO_END - 1) as nat, len);
            &&& before.next(false, len).1 == VadAction::AppendAndEmit
                <==> (k + SILENCE_CHUNKS_TO_END) * len >= MIN_SPEECH_SAMPLES
            &&& before.next(false, len).1 == VadAction::Discard
                <==> (k + SILENCE_CHUNKS_TO_END) * len < MIN_SPEECH_SAMPLES
        }),
{
    let idle = SpeechDetector { is_speaking: false, silence_chunk_count: 0, buffered: 0 };
    let q = (SILENCE_CHUNKS_TO_END - 1) as nat;
    assert(k * len <= (k + SILENCE_CHUNKS_TO_END) * len) by (nonlinear_arith);
    assert((k + SILENCE_CHUNKS_TO_END) * len == k * len + q * len + len) by (nonlinear_arith)
        requires
            q == SILENCE_CHUNKS_TO_END - 1,
    ;
    lemma_loud_run(idle, k, len);
    let spoken = after_loud(idle, k, len);
    lemma_quiet_kept(spoken, q, len);
    let before = after_quiet(spoken, q, len);
    lemma_utterance_end(before, len);
}

} // verus!
