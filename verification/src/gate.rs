//! The state machine that decides where the audio sent to ASR is cut. Pure
//! logic, independent of any model: it consumes one decision per VAD frame
//! (speech or not — the caller compares the frame's speech probability with
//! its threshold) and answers with an event.
use vstd::prelude::*;

verus! {

#[derive(Debug, Clone, Copy, PartialEq, Eq, Structural)]
pub enum VadEvent {
    /// A new utterance begins.
    SpeechStart,
    /// Still speaking (including a short pause not yet long enough to close).
    SpeechContinue,
    /// Silent long enough — close the utterance and run `Final`.
    SpeechEnd,
    /// Nothing said yet; no inference, no compute burnt.
    Silence,
}

/// Timing of the speech gate.
#[derive(Debug, Clone, Copy)]
pub struct GateConfig {
    /// How long a silence closes an utterance.
    pub silence_ms_for_end: u32,
    /// How long speech must last before it opens an utterance — keeps a click
    /// or a key press from opening an empty one.
    pub min_speech_ms: u32,
}

impl Default for GateConfig {
    fn default() -> (r: Self)
        ensures
            r.silence_ms_for_end == 800,
            r.min_speech_ms == 128,
    {
        GateConfig { silence_ms_for_end: 800, min_speech_ms: 128 }
    }
}

/// The state of a gate: whether an utterance is open, the current runs of
/// speech and silence frames, and the two thresholds in frames.
pub struct GateState {
    pub speaking: bool,
    pub speech_run: nat,
    pub silence_run: nat,
    pub end_after: nat,
    pub start_after: nat,
}

/// One frame: `speech` says whether the frame counts as speech. The run of
/// speech frames stops counting at `u32::MAX`.
pub open spec fn step(s: GateState, speech: bool) -> (GateState, VadEvent) {
    if speech {
        let s1 = GateState {
            silence_run: 0,
            speech_run: if s.speech_run < u32::MAX {
                s.speech_run + 1
            } else {
                s.speech_run
            },
            ..s
        };
        if !s.speaking {
            if s1.speech_run < s.start_after {
                (s1, VadEvent::Silence)
            } else {
                (GateState { speaking: true, ..s1 }, VadEvent::SpeechStart)
            }
        } else {
            (s1, VadEvent::SpeechContinue)
        }
    } else {
        let s1 = GateState { speech_run: 0, ..s };
        if !s.speaking {
            (s1, VadEvent::Silence)
        } else if s.silence_run + 1 >= s.end_after {
            (GateState { speaking: false, silence_run: 0, ..s1 }, VadEvent::SpeechEnd)
        } else {
            (GateState { silence_run: s.silence_run + 1, ..s1 }, VadEvent::SpeechContinue)
        }
    }
}

/// Feeds `frames` one after the other: the final state and the events.
pub open spec fn run(s: GateState, frames: Seq<bool>) -> (GateState, Seq<VadEvent>)
    decreases frames.len(),
{
    if frames.len() == 0 {
        (s, seq![])
    } else {
        let (s1, e) = step(s, frames[0]);
        let (s2, es) = run(s1, frames.drop_first());
        (s2, seq![e] + es)
    }
}

/// The speech gate state that a new gate starts from.
pub open spec fn initial_state(config: GateConfig, frame_ms: u32) -> GateState {
    let f: nat = if frame_ms >= 1 {
        frame_ms as nat
    } else {
        1
    };
    let end_after = config.silence_ms_for_end as nat / f;
    let start_after = config.min_speech_ms as nat / f;
    GateState {
        speaking: false,
        speech_run: 0,
        silence_run: 0,
        end_after: if end_after >= 1 {
            end_after
        } else {
            1
        },
        start_after: if start_after >= 1 {
            start_after
        } else {
            1
        },
    }
}

#[derive(Debug)]
pub struct SpeechGate {
    silence_frames_for_end: u32,
    min_speech_frames: u32,
    consecutive_silence: u32,
    consecutive_speech: u32,
    is_speaking: bool,
}

impl View for SpeechGate {
    type V = GateState;

    closed spec fn view(&self) -> GateState {
        GateState {
            speaking: self.is_speaking,
            speech_run: self.consecutive_speech as nat,
            silence_run: self.consecutive_silence as nat,
            end_after: self.silence_frames_for_end as nat,
            start_after: self.min_speech_frames as nat,
        }
    }
}

/// A gate's silence run stays below its closing threshold and both
/// thresholds are at least one frame.
pub open spec fn gate_state_wf(s: GateState) -> bool {
    &&& 1 <= s.end_after <= u32::MAX
    &&& 1 <= s.start_after <= u32::MAX
    &&& s.silence_run < s.end_after
    &&& s.speech_run <= u32::MAX
}

impl SpeechGate {
    #[verifier::type_invariant]
    spec fn inv(self) -> bool {
        &&& self.silence_frames_for_end >= 1
        &&& self.min_speech_frames >= 1
        &&& self.consecutive_silence < self.silence_frames_for_end
    }

    /// `frame_ms` is the length of one VAD frame (Silero scores frames of 512
    /// samples, 32 ms — do not guess 30 ms).
    pub fn new(config: GateConfig, frame_ms: u32) -> (g: Self)
        ensures
            g@ == initial_state(config, frame_ms),
    {
        let frame_ms = if frame_ms >= 1 {
            frame_ms
        } else {
            1
        };
        let end_after = config.silence_ms_for_end / frame_ms;
        let start_after = config.min_speech_ms / frame_ms;
        SpeechGate {
            silence_frames_for_end: if end_after >= 1 {
                end_after
            } else {
                1
            },
            min_speech_frames: if start_after >= 1 {
                start_after
            } else {
                1
            },
            consecutive_silence: 0,
            consecutive_speech: 0,
            is_speaking: false,
        }
    }

    /// The speech gate's state is well formed.
    pub fn is_speaking(&self) -> (r: bool)
        ensures
            r == self@.speaking,
            gate_state_wf(self@),
    {
        proof {
            use_type_invariant(self);
        }
        self.is_speaking
    }

    /// Feeds whether one frame is speech and returns the matching event.
    pub fn observe(&mut self, speech: bool) -> (event: VadEvent)
        ensures
            (final(self)@, event) == step(old(self)@, speech),
    {
        proof {
            use_type_invariant(&*self);
        }
        if speech {
            self.consecutive_silence = 0;
            self.consecutive_speech = self.consecutive_speech.saturating_add(1);
            if !self.is_speaking {
                if self.consecutive_speech < self.min_speech_frames {
                    return VadEvent::Silence;
                }
                self.is_speaking = true;
                return VadEvent::SpeechStart;
            }
            return VadEvent::SpeechContinue;
        }
        self.consecutive_speech = 0;
        if !self.is_speaking {
            return VadEvent::Silence;
        }
        let silence = self.consecutive_silence + 1;
        if silence >= self.silence_frames_for_end {
            self.is_speaking = false;
            self.consecutive_silence = 0;
            return VadEvent::SpeechEnd;
        }
        self.consecutive_silence = silence;
        // A pause inside the sentence — still speaking.
        VadEvent::SpeechContinue
    }

    /// Closes the utterance on request (client gone, buffer full).
    pub fn force_end(&mut self) -> (event: Option<VadEvent>)
        ensures
            old(self)@.speaking ==> event == Some(VadEvent::SpeechEnd) && final(self)@ == (GateState {
                speaking: false,
                silence_run: 0,
                speech_run: 0,
                ..old(self)@
            }),
            !old(self)@.speaking ==> event == None::<VadEvent> && final(self)@ == old(self)@,
    {
        proof {
            use_type_invariant(&*self);
        }
        if !self.is_speaking {
            return None;
        }
        self.is_speaking = false;
        self.consecutive_silence = 0;
        self.consecutive_speech = 0;
        Some(VadEvent::SpeechEnd)
    }
}

/// Law: events follow the state — `SpeechStart` only opens a closed
/// utterance, `SpeechEnd` only closes an open one, `SpeechContinue` only
/// happens inside one and `Silence` only outside, so starts and ends
/// alternate. Every step keeps the state well formed.
pub proof fn lemma_events_follow_state(s: GateState, speech: bool)
    requires
        gate_state_wf(s),
    ensures
        ({
            let (s2, e) = step(s, speech);
            &&& gate_state_wf(s2)
            &&& e == VadEvent::SpeechStart ==> !s.speaking && s2.speaking
            &&& e == VadEvent::SpeechEnd ==> s.speaking && !s2.speaking
            &&& e == VadEvent::SpeechContinue ==> s.speaking && s2.speaking
            &&& e == VadEvent::Silence ==> !s.speaking && !s2.speaking
            &&& s2.end_after == s.end_after && s2.start_after == s.start_after
        }),
{
}

/// Law: a burst of speech shorter than the minimum never opens an utterance:
/// from a closed gate whose speech run is `r`, `k` more speech frames with
/// `r + k` below the threshold all answer `Silence`.
pub proof fn lemma_short_burst_stays_silent(s: GateState, k: nat)
    requires
        gate_state_wf(s),
        !s.speaking,
        s.speech_run + k < s.start_after,
    ensures
        ({
            let (s2, es) = run(s, Seq::new(k, |i: int| true));
            &&& !s2.speaking
            &&& s2.speech_run == s.speech_run + k
            &&& s2.start_after == s.start_after
            &&& gate_state_wf(s2)
            &&& es =~= Seq::new(k, |i: int| VadEvent::Silence)
        }),
    decreases k,
{
    if k > 0 {
        let frames = Seq::new(k, |i: int| true);
        let (s1, e) = step(s, true);
        assert(frames.drop_first() =~= Seq::new((k - 1) as nat, |i: int| true));
        lemma_short_burst_stays_silent(s1, (k - 1) as nat);
        let (s2, es) = run(s1, frames.drop_first());
        assert(seq![e] + es =~= Seq::new(k, |i: int| VadEvent::Silence));
    }
}

/// Law: from a closed gate with no speech run, exactly `start_after` speech
/// frames open the utterance: the last of them answers `SpeechStart`, the
/// ones before answer `Silence`.
pub proof fn lemma_speech_opens_after_minimum(s: GateState)
    requires
        gate_state_wf(s),
        !s.speaking,
        s.speech_run == 0,
    ensures
        ({
            let k = s.start_after;
            let (s2, es) = run(s, Seq::new(k, |i: int| true));
            &&& s2.speaking
            &&& es.len() == k
            &&& es.last() == VadEvent::SpeechStart
            &&& forall|i: int| 0 <= i < k - 1 ==> es[i] == VadEvent::Silence
        }),
{
    let k = s.start_after;
    lemma_run_split(s, Seq::new((k - 1) as nat, |i: int| true), seq![true]);
    assert(Seq::new((k - 1) as nat, |i: int| true) + seq![true] =~= Seq::new(k, |i: int| true));
    lemma_short_burst_stays_silent(s, (k - 1) as nat);
    let (s1, es1) = run(s, Seq::new((k - 1) as nat, |i: int| true));
    assert(seq![true].drop_first() =~= Seq::<bool>::empty());
    assert(s1.speech_run == k - 1 && !s1.speaking && s1.start_after == k);
    assert(step(s1, true).1 == VadEvent::SpeechStart);
    reveal_with_fuel(run, 2);
    let (s2, es2) = run(s1, seq![true]);
    assert(es2 =~= seq![VadEvent::SpeechStart]);
    assert((es1 + es2).last() == VadEvent::SpeechStart);
}

/// Law: inside an utterance with no pause so far, exactly `end_after` silent
/// frames close it: the last answers `SpeechEnd`, the ones before answer
/// `SpeechContinue`.
pub proof fn lemma_silence_closes_after_threshold(s: GateState)
    requires
        gate_state_wf(s),
        s.speaking,
        s.silence_run == 0,
    ensures
        ({
            let k = s.end_after;
            let (s2, es) = run(s, Seq::new(k, |i: int| false));
            &&& !s2.speaking
            &&& es.len() == k
            &&& es.last() == VadEvent::SpeechEnd
            &&& forall|i: int| 0 <= i < k - 1 ==> es[i] == VadEvent::SpeechContinue
        }),
{
    let k = s.end_after;
    lemma_run_split(s, Seq::new((k - 1) as nat, |i: int| false), seq![false]);
    assert(Seq::new((k - 1) as nat, |i: int| false) + seq![false] =~= Seq::new(k, |i: int| false));
    lemma_short_pause_continues(s, (k - 1) as nat);
    let (s1, es1) = run(s, Seq::new((k - 1) as nat, |i: int| false));
    assert(seq![false].drop_first() =~= Seq::<bool>::empty());
    reveal_with_fuel(run, 2);
    let (s2, es2) = run(s1, seq![false]);
    assert(es2 =~= seq![VadEvent::SpeechEnd]);
    assert((es1 + es2).last() == VadEvent::SpeechEnd);
}

/// A pause shorter than the closing threshold keeps the utterance open.
pub proof fn lemma_short_pause_continues(s: GateState, k: nat)
    requires
        gate_state_wf(s),
        s.speaking,
        s.silence_run + k < s.end_after,
    ensures
        ({
            let (s2, es) = run(s, Seq::new(k, |i: int| false));
            &&& s2.speaking
            &&& s2.silence_run == s.silence_run + k
            &&& gate_state_wf(s2)
            &&& s2.end_after == s.end_after
            &&& es =~= Seq::new(k, |i: int| VadEvent::SpeechContinue)
        }),
    decreases k,
{
    if k > 0 {
        let frames = Seq::new(k, |i: int| false);
        let (s1, e) = step(s, false);
        assert(frames.drop_first() =~= Seq::new((k - 1) as nat, |i: int| false));
        lemma_short_pause_continues(s1, (k - 1) as nat);
        let (s2, es) = run(s1, frames.drop_first());
        assert(seq![e] + es =~= Seq::new(k, |i: int| VadEvent::SpeechContinue));
    }
}

/// Feeding two frame sequences one after the other is feeding their
/// concatenation.
pub proof fn lemma_run_split(s: GateState, a: Seq<bool>, b: Seq<bool>)
    ensures
        ({
            let (s1, e1) = run(s, a);
            let (s2, e2) = run(s1, b);
            run(s, a + b) == (s2, e1 + e2)
        }),
    decreases a.len(),
{
    if a.len() == 0 {
        assert(a + b =~= b);
        let (s1, e1) = run(s, a);
        let (s2, e2) = run(s1, b);
        assert(e1 + e2 =~= e2);
    } else {
        let (t, e) = step(s, a[0]);
        lemma_run_split(t, a.drop_first(), b);
        assert((a + b).drop_first() =~= a.drop_first() + b);
        let (s1, e1) = run(t, a.drop_first());
        let (s2, e2) = run(s1, b);
        assert(seq![e] + (e1 + e2) =~= (seq![e] + e1) + e2);
    }
}

} // verus!
