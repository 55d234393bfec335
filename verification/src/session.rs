//! The decisions of one real-time transcription session (one WebSocket
//! connection, or one CLI run): buffer → VAD → when to decode → partial /
//! final text.
//!
//! The session does no outside work itself. It is driven in steps: audio comes
//! in through [`Session::push_pcm`], which hands back the chunks the speech
//! probe must score; each frame's verdict goes to [`Session::observe_frame`];
//! after a push, [`Session::enforce_length_cap`]; at the end,
//! [`Session::finish`]. Those steps answer with the decodes to run, and the
//! outcome of each decode comes back through [`Session::on_decode_done`], which
//! answers with the event to send. The runner owns the clock, the probe, the
//! models and the channels.
use vstd::prelude::*;
use crate::asr::{pieces_text, segment_texts, AsrError, DecodeMode, TranscriptResult, Word};
use crate::errors::EngineError;
use crate::gate::{step, GateConfig, GateState, SpeechGate, VadEvent};
use crate::local_agreement::{
    after_boundary, committed_end, insert_step, words_line, AgreementModel, LocalAgreement,
    TIME_TOLERANCE_MS,
};
use crate::pcm::TARGET_SAMPLE_RATE;
use crate::ring_buffer::{
    skip_for_ms, start_ms_of, window, AudioRingBuffer, RingModel,
};
use crate::text::{joined_with_space, trimmed, chars_of, string_from_chars, trim_str};
use crate::transcript::{commit_step, text_with_partial, Transcript, TranscriptModel};

verus! {

/// `uuid::Uuid`, the identifier of a session.
#[verifier::external_type_specification]
#[verifier::external_body]
pub struct ExUuid(uuid::Uuid);

/// Calls `uuid::Uuid::new_v4`: a fresh random identifier. Nothing is claimed
/// of its value.
#[verifier::external_body]
fn new_session_id() -> uuid::Uuid {
    uuid::Uuid::new_v4()
}

/// Settings of a session, with durations in samples of 16 kHz audio.
#[derive(Debug, Clone)]
pub struct SessionConfig {
    /// Upper bound of one utterance; longer ones are closed by force so that
    /// the client never waits forever (and the window stays under whisper's
    /// 30 s). It is also the capacity of the utterance buffer.
    pub max_utterance_samples: usize,
    /// Partials decode only this tail, not the whole utterance.
    pub partial_window_samples: usize,
    /// The same window in milliseconds.
    pub partial_window_ms: i64,
    pub partial_interval_ms: u64,
    /// Audio kept from before the VAD heard speech, so the first consonant is
    /// not cut.
    pub pre_roll_samples: usize,
    /// Samples waiting for the VAD beyond this are dropped, oldest first.
    pub max_probe_backlog_samples: usize,
    /// Prime each `Final` with the committed text.
    pub condition_on_previous: bool,
    /// How many characters of committed text the prime holds.
    pub prompt_chars: usize,
    /// LocalAgreement-2 for partials.
    pub local_agreement: bool,
    pub language: Option<String>,
    pub gate: GateConfig,
}

impl Default for SessionConfig {
    fn default() -> (r: Self)
        ensures
            r.max_utterance_samples == 400_000,
            r.partial_window_samples == 96_000,
            r.partial_window_ms == 6_000,
            r.partial_interval_ms == 800,
            r.pre_roll_samples == 6_400,
            r.max_probe_backlog_samples == 32_000,
            !r.condition_on_previous,
            r.prompt_chars == 200,
            r.local_agreement,
            r.language is None,
            r.gate.silence_ms_for_end == 800,
            r.gate.min_speech_ms == 128,
    {
        SessionConfig {
            max_utterance_samples: 400_000,
            partial_window_samples: 96_000,
            partial_window_ms: 6_000,
            partial_interval_ms: 800,
            pre_roll_samples: 6_400,
            max_probe_backlog_samples: 32_000,
            condition_on_previous: false,
            prompt_chars: 200,
            local_agreement: true,
            language: None,
            gate: GateConfig::default(),
        }
    }
}

/// A decode the runner must perform.
#[derive(Debug)]
pub struct DecodeRequest<S> {
    pub pcm: Vec<S>,
    pub mode: DecodeMode,
    pub utterance: u64,
    pub prompt: Option<String>,
    /// Start of the window in the utterance (ms), or -1 when the window is a
    /// plain tail with no agreement attached.
    pub window_start_ms: i64,
    pub language: Option<String>,
}

/// The text of one finished decode.
#[derive(Debug, Clone)]
pub struct DecodedUpdate {
    /// Which utterance of the session — a partial arriving after the final of
    /// its utterance can be dropped by the client thanks to this number.
    pub utterance: u64,
    /// The text of this decode (committed part + the tail that may change).
    pub text: String,
    /// The part that LocalAgreement committed: two consecutive decodes agreed
    /// on it, so later decodes **never rewrite it**. Empty without agreement
    /// and for finals.
    pub stable_text: String,
    /// The whole text: committed utterances + the current tail.
    pub full_text: String,
    pub audio_ms: u32,
}

/// What a finished decode produces for the client.
#[derive(Debug)]
pub enum SessionEvent {
    Partial(DecodedUpdate),
    Final(DecodedUpdate),
    Failed(EngineError),
}

/// The state of a session.
pub struct SessionModel<S> {
    /// The session's identifier, drawn once when it is made.
    pub id: uuid::Uuid,
    pub config: SessionConfig,
    pub buffer: RingModel<S>,
    pub gate: GateState,
    pub pending: Seq<S>,
    pub chunk_samples: nat,
    pub transcript: TranscriptModel,
    pub agreement: AgreementModel,
    pub partial_start_ms: int,
    pub partial_inflight: bool,
    pub last_partial_at_ms: nat,
    pub utterance: nat,
}

/// A decode request, by its values.
pub struct RequestModel<S> {
    pub pcm: Seq<S>,
    pub mode: DecodeMode,
    pub utterance: nat,
    pub prompt: Option<Seq<char>>,
    pub window_start_ms: int,
    pub language: Option<Seq<char>>,
}

pub open spec fn opt_text(o: Option<String>) -> Option<Seq<char>> {
    match o {
        Some(s) => Some(s@),
        None => None,
    }
}

pub open spec fn request_model<S>(r: DecodeRequest<S>) -> RequestModel<S> {
    RequestModel {
        pcm: r.pcm@,
        mode: r.mode,
        utterance: r.utterance as nat,
        prompt: opt_text(r.prompt),
        window_start_ms: r.window_start_ms as int,
        language: opt_text(r.language),
    }
}

pub open spec fn opt_request<S>(r: Option<DecodeRequest<S>>) -> Option<RequestModel<S>> {
    match r {
        Some(q) => Some(request_model(q)),
        None => None,
    }
}

/// `n + 1`, stopping at `u64::MAX`.
pub open spec fn next_count(n: nat) -> nat {
    if n < u64::MAX {
        n + 1
    } else {
        n
    }
}

/// `v` clamped to the range of `i64`.
pub open spec fn clamp_to_i64(v: int) -> int {
    if v > i64::MAX {
        i64::MAX as int
    } else if v < i64::MIN {
        i64::MIN as int
    } else {
        v
    }
}

/// The prime for the next `Final`: the last `prompt_chars` characters of the
/// committed text (all of it when it is shorter, or when `prompt_chars` is
/// 0); nothing when priming is off or nothing is committed.
pub open spec fn prompt_of(config: SessionConfig, committed: Seq<char>) -> Option<Seq<char>> {
    if !config.condition_on_previous || committed.len() == 0 {
        None
    } else if config.prompt_chars == 0 || committed.len() <= config.prompt_chars {
        Some(committed)
    } else {
        Some(committed.skip(committed.len() - config.prompt_chars))
    }
}

/// Closing the utterance: nothing when the buffer is empty; otherwise the
/// whole buffer goes to a `Final` decode, the buffer and its time axis are
/// cleared, the utterance counter moves on, the agreement is reset and the
/// partial window goes back to the start.
pub open spec fn close_spec<S>(m: SessionModel<S>) -> (SessionModel<S>, Option<RequestModel<S>>) {
    if m.buffer.samples.len() == 0 {
        (m, None)
    } else {
        (
            SessionModel {
                buffer: RingModel { samples: Seq::empty(), dropped: 0, ..m.buffer },
                utterance: next_count(m.utterance),
                agreement: AgreementModel { committed: Seq::empty(), pending: Seq::empty() },
                partial_start_ms: 0,
                ..m
            },
            Some(
                RequestModel {
                    pcm: m.buffer.samples,
                    mode: DecodeMode::Final,
                    utterance: m.utterance,
                    prompt: prompt_of(m.config, joined_with_space(m.transcript.utterances)),
                    window_start_ms: 0,
                    language: opt_text(m.config.language),
                },
            ),
        )
    }
}

/// The audio of the next partial and the time it starts at.
///
/// Without agreement it is the tail of the buffer, with no start (-1). With
/// agreement it starts where the committed words end (or at the buffer's
/// start when that has left the buffer); when that window is longer than the
/// partial window — nothing could be committed in a full window (music, a
/// stammering speaker) — it slides to the tail, the pending words lose their
/// anchor, and the start is recomputed from the buffer's whole seconds.
pub open spec fn window_spec<S>(m: SessionModel<S>) -> (SessionModel<S>, Seq<S>, int) {
    let c = m.config;
    if !c.local_agreement {
        (m, window(m.buffer.samples, c.partial_window_samples as nat), -1)
    } else {
        let buf_start = start_ms_of(m.buffer) as int;
        let start0 = if m.partial_start_ms >= buf_start {
            m.partial_start_ms
        } else {
            buf_start
        };
        let skip = skip_for_ms(m.buffer, start0);
        let pcm0 = if skip >= m.buffer.samples.len() {
            Seq::<S>::empty()
        } else {
            m.buffer.samples.skip(skip)
        };
        if pcm0.len() > c.partial_window_samples {
            let start = clamp_to_i64(
                (m.buffer.samples.len() / 16_000) as int * 1000 + buf_start - c.partial_window_ms,
            );
            let kept = if start >= 0 {
                start
            } else {
                0
            };
            (
                SessionModel {
                    partial_start_ms: kept,
                    agreement: AgreementModel { pending: Seq::empty(), ..m.agreement },
                    ..m
                },
                window(m.buffer.samples, c.partial_window_samples as nat),
                kept,
            )
        } else {
            (m, pcm0, if start0 >= 0 {
                start0
            } else {
                0
            })
        }
    }
}

/// A partial, if one is due: at least `partial_interval_ms` since the last
/// one and the previous partial finished (an overdue partial is skipped
/// rather than queued, or the queue would grow forever when decoding is
/// slower than real time).
pub open spec fn partial_spec<S>(m: SessionModel<S>, now_ms: nat) -> (
    SessionModel<S>,
    Option<RequestModel<S>>,
) {
    let elapsed = if now_ms >= m.last_partial_at_ms {
        now_ms - m.last_partial_at_ms
    } else {
        0
    };
    if elapsed < m.config.partial_interval_ms || m.partial_inflight {
        (m, None)
    } else {
        let m1 = SessionModel { partial_inflight: true, last_partial_at_ms: now_ms, ..m };
        let (m2, pcm, start) = window_spec(m1);
        if pcm.len() == 0 {
            (SessionModel { partial_inflight: false, ..m2 }, None)
        } else {
            (
                m2,
                Some(
                    RequestModel {
                        pcm,
                        mode: DecodeMode::Partial,
                        utterance: m.utterance,
                        prompt: None,
                        window_start_ms: start,
                        language: opt_text(m.config.language),
                    },
                ),
            )
        }
    }
}

/// One VAD frame: the speech gate steps, and its event decides — a start keeps only
/// the pre-roll in the buffer and restarts the partial clock, speech asks
/// for a partial when one is due, an end closes the utterance, silence does
/// nothing.
pub open spec fn frame_spec<S>(m: SessionModel<S>, speech: bool, now_ms: nat) -> (
    SessionModel<S>,
    Option<RequestModel<S>>,
) {
    let (g, event) = step(m.gate, speech);
    let m1 = SessionModel { gate: g, ..m };
    match event {
        VadEvent::SpeechStart => (
            SessionModel {
                buffer: RingModel {
                    samples: window(m.buffer.samples, m.config.pre_roll_samples as nat),
                    dropped: crate::ring_buffer::saturating(
                        m.buffer.dropped,
                        (m.buffer.samples.len() - window(
                            m.buffer.samples,
                            m.config.pre_roll_samples as nat,
                        ).len()) as nat,
                    ),
                    ..m.buffer
                },
                last_partial_at_ms: now_ms,
                ..m1
            },
            None,
        ),
        VadEvent::SpeechContinue => partial_spec(m1, now_ms),
        VadEvent::SpeechEnd => close_spec(m1),
        VadEvent::Silence => (m1, None),
    }
}

/// The speech gate after `force_end`: closed, with no runs.
pub open spec fn forced_end(g: GateState) -> GateState {
    if g.speaking {
        GateState { speaking: false, silence_run: 0, speech_run: 0, ..g }
    } else {
        g
    }
}

/// The chunks concatenated.
pub open spec fn flatten<S>(chunks: Seq<Seq<S>>) -> Seq<S>
    decreases chunks.len(),
{
    if chunks.len() == 0 {
        seq![]
    } else {
        flatten(chunks.drop_last()) + chunks.last()
    }
}

pub open spec fn chunk_views<S>(chunks: Seq<Vec<S>>) -> Seq<Seq<S>> {
    chunks.map_values(|c: Vec<S>| c@)
}

/// The words of a hypothesis moved by `offset` ms (clamped to `i64`).
pub open spec fn shifted(words: Seq<Word>, offset: int) -> Seq<Word> {
    words.map_values(
        |w: Word|
            Word {
                text: w.text,
                start_ms: clamp_to_i64(w.start_ms + offset) as i64,
                end_ms: clamp_to_i64(w.end_ms + offset) as i64,
            },
    )
}

/// `event` is the update of the given kind with these values.
pub open spec fn update_event(
    event: Option<SessionEvent>,
    mode: DecodeMode,
    utterance: u64,
    text: Seq<char>,
    stable: Seq<char>,
    full: Seq<char>,
    audio_ms: u32,
) -> bool {
    let fields = |u: DecodedUpdate|
        u.utterance == utterance && u.text@ == text && u.stable_text@ == stable && u.full_text@
            == full && u.audio_ms == audio_ms;
    match event {
        Some(SessionEvent::Final(u)) => mode == DecodeMode::Final && fields(u),
        Some(SessionEvent::Partial(u)) => mode == DecodeMode::Partial && fields(u),
        _ => false,
    }
}

/// The text of an agreed partial: the committed line, then the pending line,
/// separated by one space when both are non-empty.
pub open spec fn agreed_text(committed: Seq<char>, pending: Seq<char>) -> Seq<char> {
    if committed.len() == 0 {
        pending
    } else if pending.len() == 0 {
        committed
    } else {
        committed.push(' ') + pending
    }
}

pub struct Session<S: Copy> {
    id: uuid::Uuid,
    config: SessionConfig,
    buffer: AudioRingBuffer<S>,
    gate: SpeechGate,
    probe_pending: Vec<S>,
    probe_chunk_samples: usize,
    transcript: Transcript,
    agreement: LocalAgreement,
    /// Time (ms within the utterance) where the next partial window starts —
    /// LocalAgreement moves it forward whenever it commits more words.
    partial_start_ms: i64,
    partial_inflight: bool,
    last_partial_at_ms: u64,
    utterance: u64,
}

impl<S: Copy> View for Session<S> {
    type V = SessionModel<S>;

    closed spec fn view(&self) -> SessionModel<S> {
        SessionModel {
            id: self.id,
            config: self.config,
            buffer: self.buffer@,
            gate: self.gate@,
            pending: self.probe_pending@,
            chunk_samples: self.probe_chunk_samples as nat,
            transcript: self.transcript@,
            agreement: self.agreement@,
            partial_start_ms: self.partial_start_ms as int,
            partial_inflight: self.partial_inflight,
            last_partial_at_ms: self.last_partial_at_ms as nat,
            utterance: self.utterance as nat,
        }
    }
}

fn clone_opt_string(o: &Option<String>) -> (r: Option<String>)
    ensures
        r == *o,
{
    match o {
        Some(s) => Some(s.clone()),
        None => None,
    }
}

fn clamp_i128(v: i128) -> (r: i64)
    ensures
        r as int == clamp_to_i64(v as int),
{
    if v > i64::MAX as i128 {
        i64::MAX
    } else if v < i64::MIN as i128 {
        i64::MIN
    } else {
        v as i64
    }
}

impl<S: Copy> Session<S> {
    /// Well formed: the buffer runs at 16 kHz and the probe chunk holds at
    /// least one sample.
    pub open spec fn wf(&self) -> bool {
        &&& self@.buffer.sample_rate == 16_000
        &&& self@.chunk_samples >= 1
    }

    /// A new session. The probe is fed chunks of eight of its frames (about
    /// 256 ms for Silero): enough context for the model, fine enough to cut
    /// sentences.
    pub fn new(config: SessionConfig, frame_samples: usize, frame_ms: u32, now_ms: u64) -> (s: Self)
        requires
            frame_samples >= 1,
            frame_samples * 8 <= usize::MAX,
        ensures
            s.wf(),
            s@.config == config,
            s@.buffer.samples == Seq::<S>::empty(),
            s@.buffer.dropped == 0,
            s@.buffer.max_samples == (if config.max_utterance_samples >= 1 {
                config.max_utterance_samples as nat
            } else {
                1
            }),
            s@.gate == crate::gate::initial_state(config.gate, frame_ms),
            s@.pending == Seq::<S>::empty(),
            s@.chunk_samples == frame_samples * 8,
            s@.transcript.utterances == Seq::<Seq<char>>::empty(),
            s@.transcript.duplicates_dropped == 0,
            s@.agreement.committed == Seq::<Word>::empty(),
            s@.agreement.pending == Seq::<Word>::empty(),
            s@.partial_start_ms == 0,
            !s@.partial_inflight,
            s@.last_partial_at_ms == now_ms,
            s@.utterance == 0,
    {
        let gate = SpeechGate::new(config.gate, frame_ms);
        let buffer = AudioRingBuffer::new(TARGET_SAMPLE_RATE, config.max_utterance_samples);
        Session {
            id: new_session_id(),
            config,
            buffer,
            gate,
            probe_pending: Vec::new(),
            probe_chunk_samples: frame_samples * 8,
            transcript: Transcript::new(),
            agreement: LocalAgreement::new(),
            partial_start_ms: 0,
            partial_inflight: false,
            last_partial_at_ms: now_ms,
            utterance: 0,
        }
    }

    /// The session's identifier; every operation keeps it.
    pub fn id(&self) -> (r: uuid::Uuid)
        ensures
            r == self@.id,
    {
        self.id
    }

    /// The committed utterances joined with single spaces.
    pub fn committed_text(&self) -> (r: String)
        ensures
            r@ == joined_with_space(self@.transcript.utterances),
    {
        self.transcript.committed_text()
    }

    /// Takes a chunk of 16 kHz mono PCM. It goes into the utterance buffer and
    /// into the probe's queue; when the probe falls behind, the oldest waiting
    /// samples are dropped (the audio stays in the buffer, only the precision
    /// of the cut is lost). Returns the whole chunks the probe must score now,
    /// in order; each frame verdict then goes to [`Self::observe_frame`].
    pub fn push_pcm(&mut self, pcm: &[S]) -> (chunks: Vec<Vec<S>>)
        requires
            old(self).wf(),
        ensures
            final(self).wf(),
            pcm@.len() == 0 ==> final(self)@ == old(self)@ && chunks@.len() == 0,
            pcm@.len() > 0 ==> ({
                let queued = window(
                    old(self)@.pending + pcm@,
                    old(self)@.config.max_probe_backlog_samples as nat,
                );
                &&& final(self)@.buffer.samples == window(
                    old(self)@.buffer.samples + pcm@,
                    old(self)@.buffer.max_samples,
                )
                &&& final(self)@.buffer.dropped == crate::ring_buffer::saturating(
                    old(self)@.buffer.dropped,
                    (old(self)@.buffer.samples.len() + pcm@.len()
                        - final(self)@.buffer.samples.len()) as nat,
                )
                &&& final(self)@.buffer.sample_rate == old(self)@.buffer.sample_rate
                &&& final(self)@.buffer.max_samples == old(self)@.buffer.max_samples
                &&& flatten(chunk_views(chunks@)) + final(self)@.pending == queued
                &&& forall|i: int|
                    0 <= i < chunks@.len() ==> (#[trigger] chunks@[i])@.len()
                        == old(self)@.chunk_samples
                &&& final(self)@.pending.len() < old(self)@.chunk_samples
                &&& final(self)@ == SessionModel {
                    buffer: final(self)@.buffer,
                    pending: final(self)@.pending,
                    ..old(self)@
                }
            }),
    {
        if pcm.len() == 0 {
            return Vec::new();
        }
        self.buffer.push(pcm);
        let mut queued: Vec<S> = Vec::new();
        std::mem::swap(&mut queued, &mut self.probe_pending);
        let mut k: usize = 0;
        while k < pcm.len()
            invariant
                k <= pcm@.len(),
                queued@ == old(self)@.pending + pcm@.take(k as int),
            decreases pcm.len() - k,
        {
            queued.push(pcm[k]);
            k += 1;
            assert(queued@ =~= old(self)@.pending + pcm@.take(k as int));
        }
        assert(pcm@.take(pcm@.len() as int) =~= pcm@);
        let backlog = self.config.max_probe_backlog_samples;
        let from = if queued.len() > backlog {
            queued.len() - backlog
        } else {
            0
        };
        let ghost q = queued@.skip(from as int);
        assert(q =~= window(old(self)@.pending + pcm@, backlog as nat));
        let chunk = self.probe_chunk_samples;
        let mut chunks: Vec<Vec<S>> = Vec::new();
        let mut pos: usize = from;
        while queued.len() - pos >= chunk
            invariant
                from <= pos <= queued@.len(),
                chunk >= 1,
                q == queued@.skip(from as int),
                flatten(chunk_views(chunks@)) == queued@.subrange(from as int, pos as int),
                forall|i: int| 0 <= i < chunks@.len() ==> (#[trigger] chunks@[i])@.len() == chunk,
            decreases queued@.len() - pos,
        {
            let piece = copy_range(queued.as_slice(), pos, pos + chunk);
            let ghost before = chunks@;
            chunks.push(piece);
            proof {
                assert(chunk_views(chunks@).drop_last() =~= chunk_views(before));
                assert(queued@.subrange(from as int, (pos + chunk) as int) =~= queued@.subrange(
                    from as int,
                    pos as int,
                ) + queued@.subrange(pos as int, (pos + chunk) as int));
            }
            pos = pos + chunk;
        }
        let rest = copy_range(queued.as_slice(), pos, queued.len());
        assert(flatten(chunk_views(chunks@)) + rest@ =~= q);
        self.probe_pending = rest;
        chunks
    }

    /// Takes the verdict on one VAD frame (`speech`: its probability reached
    /// the threshold) at time `now_ms` of the runner's clock, and answers with
    /// the decode to start, if any.
    pub fn observe_frame(&mut self, speech: bool, now_ms: u64) -> (request: Option<DecodeRequest<S>>)
        requires
            old(self).wf(),
        ensures
            final(self).wf(),
            (final(self)@, opt_request(request)) == frame_spec(old(self)@, speech, now_ms as nat),
            request matches Some(q) ==> opt_text(q.language) == opt_text(old(self)@.config.language),
            request matches Some(q) ==> (q.mode == DecodeMode::Partial
                ==> final(self)@.last_partial_at_ms == now_ms),
            request matches Some(q) ==> (q.mode == DecodeMode::Partial && now_ms
                >= old(self)@.last_partial_at_ms ==> now_ms - old(self)@.last_partial_at_ms
                >= old(self)@.config.partial_interval_ms),
    {
        let event = self.gate.observe(speech);
        match event {
            VadEvent::SpeechStart => {
                // Drop the silence before, keep only the pre-roll.
                self.buffer.retain_tail(self.config.pre_roll_samples);
                self.last_partial_at_ms = now_ms;
                None
            },
            VadEvent::SpeechContinue => self.maybe_partial(now_ms),
            VadEvent::SpeechEnd => self.close_utterance(),
            VadEvent::Silence => None,
        }
    }

    /// Closes an utterance that reached the length cap (call after each push,
    /// once its frames are observed).
    pub fn enforce_length_cap(&mut self) -> (request: Option<DecodeRequest<S>>)
        requires
            old(self).wf(),
        ensures
            final(self).wf(),
            old(self)@.buffer.samples.len() >= old(self)@.config.max_utterance_samples ==> (
            final(self)@, opt_request(request)) == close_spec(
                SessionModel { gate: forced_end(old(self)@.gate), ..old(self)@ },
            ),
            old(self)@.buffer.samples.len() < old(self)@.config.max_utterance_samples ==> final(self)@ == old(self)@ && request is None,
            request matches Some(q) ==> opt_text(q.language) == opt_text(old(self)@.config.language),
    {
        if self.buffer.len() >= self.config.max_utterance_samples {
            self.gate.force_end();
            return self.close_utterance();
        }
        None
    }

    /// Closes what is left (the client closed the connection, or the file
    /// ended).
    pub fn finish(&mut self) -> (request: Option<DecodeRequest<S>>)
        requires
            old(self).wf(),
        ensures
            final(self).wf(),
            (final(self)@, opt_request(request)) == close_spec(
                SessionModel { gate: forced_end(old(self)@.gate), ..old(self)@ },
            ),
            request matches Some(q) ==> opt_text(q.language) == opt_text(old(self)@.config.language),
    {
        self.gate.force_end();
        self.close_utterance()
    }

    fn maybe_partial(&mut self, now_ms: u64) -> (request: Option<DecodeRequest<S>>)
        requires
            old(self).wf(),
        ensures
            final(self).wf(),
            (final(self)@, opt_request(request)) == partial_spec(old(self)@, now_ms as nat),
    {
        let elapsed = now_ms.saturating_sub(self.last_partial_at_ms);
        if elapsed < self.config.partial_interval_ms || self.partial_inflight {
            return None;
        }
        self.partial_inflight = true;
        self.last_partial_at_ms = now_ms;
        let (pcm, window_start_ms) = self.partial_window();
        if pcm.len() == 0 {
            self.partial_inflight = false;
            return None;
        }
        Some(
            DecodeRequest {
                pcm,
                mode: DecodeMode::Partial,
                utterance: self.utterance,
                prompt: None,
                window_start_ms,
                language: clone_opt_string(&self.config.language),
            },
        )
    }

    fn partial_window(&mut self) -> (r: (Vec<S>, i64))
        requires
            old(self).wf(),
        ensures
            final(self).wf(),
            (final(self)@, r.0@, r.1 as int) == window_spec(old(self)@),
    {
        if !self.config.local_agreement {
            return (self.buffer.tail(self.config.partial_window_samples), -1);
        }
        let max_samples = self.config.partial_window_samples;
        let buf_start = self.buffer.start_ms();
        let start0 = if self.partial_start_ms >= buf_start {
            self.partial_start_ms
        } else {
            buf_start
        };
        let pcm0 = self.buffer.slice_from_ms(start0);
        if pcm0.len() > max_samples {
            let pcm = self.buffer.tail(max_samples);
            let secs = (self.buffer.len() / 16_000) as i128;
            let start = clamp_i128(
                secs * 1000 + buf_start as i128 - self.config.partial_window_ms as i128,
            );
            let kept = if start >= 0 {
                start
            } else {
                0
            };
            self.partial_start_ms = kept;
            self.agreement.slide();
            return (pcm, kept);
        }
        (pcm0, if start0 >= 0 {
            start0
        } else {
            0
        })
    }

    fn close_utterance(&mut self) -> (request: Option<DecodeRequest<S>>)
        requires
            old(self).wf(),
        ensures
            final(self).wf(),
            (final(self)@, opt_request(request)) == close_spec(old(self)@),
    {
        if self.buffer.is_empty() {
            return None;
        }
        let pcm = self.buffer.snapshot();
        self.buffer.clear();
        let utterance = self.utterance;
        self.utterance = self.utterance.saturating_add(1);
        let prompt = self.previous_text_prompt();
        self.agreement.reset();
        self.partial_start_ms = 0;
        Some(
            DecodeRequest {
                pcm,
                mode: DecodeMode::Final,
                utterance,
                prompt,
                window_start_ms: 0,
                language: clone_opt_string(&self.config.language),
            },
        )
    }

    /// The tail of the committed text, used to prime the next `Final`.
    fn previous_text_prompt(&self) -> (r: Option<String>)
        ensures
            opt_text(r) == prompt_of(self@.config, joined_with_space(self@.transcript.utterances)),
    {
        if !self.config.condition_on_previous {
            return None;
        }
        let committed = self.transcript.committed_text();
        let chars = chars_of(committed.as_str());
        let n = chars.len();
        if n == 0 {
            return None;
        }
        let keep = self.config.prompt_chars;
        if keep == 0 || n <= keep {
            return Some(committed);
        }
        let tail = copy_range(chars.as_slice(), n - keep, n);
        assert(tail@ =~= chars@.skip((n - keep) as int));
        Some(string_from_chars(tail.as_slice()))
    }

    /// Takes the outcome of a decode that this session requested (its mode,
    /// utterance and window start as in the request) and answers with the
    /// event to send, if any.
    ///
    /// A finished partial frees the partial slot. Audio shorter than the
    /// engine's minimum is not the client's fault and is dropped silently;
    /// other failures become a `Failed` event. With agreement, a partial's
    /// words (moved to utterance time) go through LocalAgreement: only what two
    /// consecutive passes agree on is shown as committed, and the next window
    /// starts where it ends; a partial whose text is then blank is dropped. A
    /// final is committed to the transcript — refused (blank or a repeat) it
    /// sends nothing; a partial is shown after the committed text.
    pub fn on_decode_done(
        &mut self,
        mode: DecodeMode,
        utterance: u64,
        window_start_ms: i64,
        outcome: Result<TranscriptResult, EngineError>,
    ) -> (event: Option<SessionEvent>)
        requires
            old(self).wf(),
        ensures
            final(self).wf(),
            final(self)@.partial_inflight == (old(self)@.partial_inflight && mode
                != DecodeMode::Partial),
            final(self)@.id == old(self)@.id,
            final(self)@.buffer == old(self)@.buffer,
            final(self)@.gate == old(self)@.gate,
            final(self)@.pending == old(self)@.pending,
            final(self)@.config == old(self)@.config,
            final(self)@.utterance == old(self)@.utterance,
            final(self)@.last_partial_at_ms == old(self)@.last_partial_at_ms,
            final(self)@.chunk_samples == old(self)@.chunk_samples,
            (outcome matches Err(EngineError::Asr(AsrError::AudioTooShort { .. }))) ==> event is None
                && final(self)@.transcript == old(self)@.transcript && final(self)@.agreement
                == old(self)@.agreement && final(self)@.partial_start_ms
                == old(self)@.partial_start_ms,
            (outcome is Err && !(outcome matches Err(
                EngineError::Asr(AsrError::AudioTooShort { .. }),
            ))) ==> event == Some(SessionEvent::Failed(outcome->Err_0))
                && final(self)@.transcript == old(self)@.transcript && final(self)@.agreement
                == old(self)@.agreement && final(self)@.partial_start_ms
                == old(self)@.partial_start_ms,
            outcome is Ok ==> ({
                let result = outcome->Ok_0;
                let agreed = old(self)@.config.local_agreement && window_start_ms >= 0 && mode
                    == DecodeMode::Partial;
                let hyp = shifted(result.words@, window_start_ms as int);
                let fresh = after_boundary(hyp, committed_end(old(self)@.agreement.committed));
                let k = final(self)@.agreement.committed.len() - old(self)@.agreement.committed.len();
                let committed_line = words_line(final(self)@.agreement.committed);
                let text = if agreed {
                    agreed_text(committed_line, words_line(final(self)@.agreement.pending))
                } else {
                    pieces_text(segment_texts(result.segments@))
                };
                let stable: Seq<char> = if agreed {
                    committed_line
                } else {
                    Seq::empty()
                };
                &&& agreed ==> insert_step(old(self)@.agreement, hyp, k)
                &&& agreed ==> final(self)@.agreement.committed == old(self)@.agreement.committed
                    + fresh.take(k)
                &&& agreed ==> final(self)@.agreement.pending == fresh.skip(k)
                &&& agreed ==> final(self)@.partial_start_ms == clamp_to_i64(
                    committed_end(final(self)@.agreement.committed),
                )
                &&& !agreed ==> final(self)@.agreement == old(self)@.agreement
                    && final(self)@.partial_start_ms == old(self)@.partial_start_ms
                &&& (agreed && trimmed(text).len() == 0) ==> event is None && final(self)@.transcript == old(self)@.transcript
                &&& !(agreed && trimmed(text).len() == 0) ==> mode == DecodeMode::Final ==> ({
                    let (t, accepted) = commit_step(old(self)@.transcript, text);
                    &&& final(self)@.transcript == t
                    &&& accepted ==> update_event(event, DecodeMode::Final, utterance, text, stable, joined_with_space(t.utterances), result.audio_ms)
                    &&& !accepted ==> event is None
                })
                &&& !(agreed && trimmed(text).len() == 0) ==> mode == DecodeMode::Partial ==> (
                final(self)@.transcript == old(self)@.transcript && update_event(event, DecodeMode::Partial, utterance, text, stable, text_with_partial(old(self)@.transcript.utterances, text), result.audio_ms))
            }),
    {
        if mode == DecodeMode::Partial {
            self.partial_inflight = false;
        }
        let result = match outcome {
            Ok(result) => result,
            Err(EngineError::Asr(AsrError::AudioTooShort { got_ms, min_ms })) => {
                return None;
            },
            Err(err) => {
                return Some(SessionEvent::Failed(err));
            },
        };
        let mut text = result.text();
        let mut stable_text = String::new();
        let agreed = self.config.local_agreement && window_start_ms >= 0 && mode
            == DecodeMode::Partial;
        if agreed {
            let words = shift_words(result.words.as_slice(), window_start_ms);
            self.agreement.insert(words);
            let committed = self.agreement.committed_text();
            let pending = self.agreement.pending_text();
            self.partial_start_ms = self.agreement.committed_end_ms();
            text = join_agreed(committed.as_str(), pending.as_str());
            stable_text = committed;
            let t = trim_str(text.as_str());
            if t.as_str().is_empty() {
                return None;
            }
        }
        let full_text = if mode == DecodeMode::Final {
            let outcome = self.transcript.commit(text.as_str());
            if !outcome.accepted {
                return None;
            }
            outcome.full_text
        } else {
            self.transcript.with_partial(text.as_str())
        };
        let update = DecodedUpdate {
            utterance,
            text,
            stable_text,
            full_text,
            audio_ms: result.audio_ms,
        };
        if mode == DecodeMode::Final {
            Some(SessionEvent::Final(update))
        } else {
            Some(SessionEvent::Partial(update))
        }
    }
}

/// Law: at most one partial is in flight — no partial is requested while the
/// previous one has not come back, and requesting one marks the slot taken.
pub proof fn lemma_one_partial_at_a_time<S>(m: SessionModel<S>, now_ms: nat)
    ensures
        m.partial_inflight ==> partial_spec(m, now_ms).1 is None && partial_spec(m, now_ms).0 == m,
        partial_spec(m, now_ms).1 is Some ==> partial_spec(m, now_ms).0.partial_inflight,
        partial_spec(m, now_ms).1 is None ==> partial_spec(m, now_ms).0.partial_inflight
            == m.partial_inflight,
{
}

/// Law: while a partial is in flight, no frame asks for another one — a new
/// partial is dropped, not queued. A frame may still close the utterance
/// (a `Final`), and the slot stays taken until the partial comes back
/// ([`Session::on_decode_done`] frees it only for a partial's outcome).
pub proof fn lemma_no_second_partial<S>(m: SessionModel<S>, speech: bool, now_ms: nat)
    requires
        m.partial_inflight,
    ensures
        !(frame_spec(m, speech, now_ms).1 matches Some(q) && q.mode == DecodeMode::Partial),
        frame_spec(m, speech, now_ms).0.partial_inflight,
        !(close_spec(m).1 matches Some(q) && q.mode == DecodeMode::Partial),
        close_spec(m).0.partial_inflight,
{
}

/// Law: closing an utterance hands the whole buffered utterance to a final
/// decode under the current utterance number, then starts the next utterance
/// from scratch: empty buffer at time 0, agreement cleared, partial window at
/// 0, counter moved on; the committed transcript is untouched.
pub proof fn lemma_close_hands_over_utterance<S>(m: SessionModel<S>)
    requires
        m.buffer.samples.len() > 0,
    ensures
        ({
            let (m2, r) = close_spec(m);
            &&& r matches Some(q) && q.pcm == m.buffer.samples && q.mode == DecodeMode::Final
                && q.utterance == m.utterance
            &&& m2.buffer.samples.len() == 0 && m2.buffer.dropped == 0
            &&& m2.agreement.committed.len() == 0 && m2.agreement.pending.len() == 0
            &&& m2.partial_start_ms == 0
            &&& m2.utterance == next_count(m.utterance)
            &&& m2.transcript == m.transcript
        }),
{
}

/// Law: a silent frame outside an utterance changes nothing but the speech gate's
/// speech run and never asks for a decode.
pub proof fn lemma_silence_costs_nothing<S>(m: SessionModel<S>, now_ms: nat)
    requires
        !m.gate.speaking,
    ensures
        frame_spec(m, false, now_ms).1 is None,
        frame_spec(m, false, now_ms).0 == (SessionModel {
            gate: GateState { speech_run: 0, ..m.gate },
            ..m
        }),
{
}

/// Law: a partial's window never reaches before the buffer and is never
/// longer than the partial window, except when it starts where agreement
/// committed (the tail beyond it is at most one window long).
pub proof fn lemma_partial_window_bounded<S>(m: SessionModel<S>)
    ensures
        ({
            let (m2, pcm, start) = window_spec(m);
            &&& pcm.len() <= m.buffer.samples.len()
            &&& pcm.len() <= m.config.partial_window_samples
            &&& m.config.local_agreement ==> start >= 0
            &&& !m.config.local_agreement ==> start == -1
            &&& m2.transcript == m.transcript
            &&& m2.buffer == m.buffer
        }),
{
}

/// Words that all start no earlier than `TIME_TOLERANCE_MS` before the
/// boundary are all kept.
proof fn lemma_all_after_boundary(hyp: Seq<Word>, boundary: int)
    requires
        forall|i: int| 0 <= i < hyp.len() ==> (#[trigger] hyp[i]).start_ms + TIME_TOLERANCE_MS >= boundary,
    ensures
        after_boundary(hyp, boundary) == hyp,
    decreases hyp.len(),
{
    if hyp.len() > 0 {
        lemma_all_after_boundary(hyp.drop_last(), boundary);
        assert(hyp.drop_last().push(hyp.last()) =~= hyp);
    }
}

/// Law: the hypothesis that a partial hands to LocalAgreement is in utterance
/// time. Each decoded word keeps its text and is moved by the window's start
/// (its start and end plus `window_start_ms`, wherever that fits in `i64`);
/// so when the window starts where the committed words end, no word decoded
/// inside the window is dropped as already committed.
pub proof fn lemma_partial_words_in_utterance_time(
    words: Seq<Word>,
    window_start_ms: int,
    committed: Seq<Word>,
)
    ensures
        shifted(words, window_start_ms).len() == words.len(),
        forall|i: int|
            0 <= i < words.len() ==> {
                let w = #[trigger] shifted(words, window_start_ms)[i];
                &&& w.text == words[i].text
                &&& (i64::MIN <= words[i].start_ms + window_start_ms <= i64::MAX) ==> w.start_ms
                    == words[i].start_ms + window_start_ms
                &&& (i64::MIN <= words[i].end_ms + window_start_ms <= i64::MAX) ==> w.end_ms
                    == words[i].end_ms + window_start_ms
            },
        (window_start_ms == committed_end(committed) && forall|i: int|
            0 <= i < words.len() ==> 0 <= (#[trigger] words[i]).start_ms && words[i].start_ms
                + window_start_ms <= i64::MAX) ==> after_boundary(
            shifted(words, window_start_ms),
            committed_end(committed),
        ) == shifted(words, window_start_ms),
{
    let h = shifted(words, window_start_ms);
    if window_start_ms == committed_end(committed) && forall|i: int|
        0 <= i < words.len() ==> 0 <= (#[trigger] words[i]).start_ms && words[i].start_ms
            + window_start_ms <= i64::MAX {
        assert forall|i: int| 0 <= i < h.len() implies (#[trigger] h[i]).start_ms
            + TIME_TOLERANCE_MS >= committed_end(committed) by {
            assert(0 <= words[i].start_ms);
        }
        lemma_all_after_boundary(h, committed_end(committed));
    }
}

/// Law: partials are spaced by the partial interval. When a frame at `t1`
/// asks for a partial, the time of the last partial becomes `t1`; after that
/// (the operations in between keep that time or move it forward), a frame at
/// a later `t2` asks for another partial only if `t2 - t1` reaches
/// `partial_interval_ms`.
pub proof fn lemma_partials_spaced<S>(
    m: SessionModel<S>,
    speech1: bool,
    t1: nat,
    m2: SessionModel<S>,
    speech2: bool,
    t2: nat,
)
    requires
        frame_spec(m, speech1, t1).1 matches Some(q) && q.mode == DecodeMode::Partial,
        m2.config == m.config,
        m2.last_partial_at_ms >= frame_spec(m, speech1, t1).0.last_partial_at_ms,
        t1 <= t2,
    ensures
        frame_spec(m, speech1, t1).0.last_partial_at_ms == t1,
        (frame_spec(m2, speech2, t2).1 matches Some(q) && q.mode == DecodeMode::Partial) ==> t2
            - t1 >= m.config.partial_interval_ms,
{
}

/// Law: every decode the session asks for, final as well as partial, runs in
/// the configured language.
pub proof fn lemma_requests_carry_language<S>(m: SessionModel<S>, speech: bool, now_ms: nat)
    ensures
        frame_spec(m, speech, now_ms).1 matches Some(q) ==> q.language == opt_text(
            m.config.language,
        ),
        close_spec(m).1 matches Some(q) ==> q.language == opt_text(m.config.language),
        close_spec(SessionModel { gate: forced_end(m.gate), ..m }).1 matches Some(q) ==> q.language
            == opt_text(m.config.language),
{
}

fn shift_words(words: &[Word], offset: i64) -> (r: Vec<Word>)
    ensures
        r@ == shifted(words@, offset as int),
{
    let mut r: Vec<Word> = Vec::new();
    let mut k: usize = 0;
    while k < words.len()
        invariant
            k <= words@.len(),
            r@ == shifted(words@.take(k as int), offset as int),
        decreases words.len() - k,
    {
        let w = &words[k];
        r.push(
            Word {
                text: w.text.clone(),
                start_ms: clamp_i128(w.start_ms as i128 + offset as i128),
                end_ms: clamp_i128(w.end_ms as i128 + offset as i128),
            },
        );
        k += 1;
        assert(r@ =~= shifted(words@.take(k as int), offset as int));
    }
    assert(words@.take(words@.len() as int) =~= words@);
    r
}

fn join_agreed(committed: &str, pending: &str) -> (r: String)
    ensures
        r@ == agreed_text(committed@, pending@),
{
    if committed.is_empty() {
        return string_from_chars(chars_of(pending).as_slice());
    }
    if pending.is_empty() {
        return string_from_chars(chars_of(committed).as_slice());
    }
    let mut out = string_from_chars(chars_of(committed).as_slice());
    proof {
        reveal_strlit(" ");
    }
    out.append(" ");
    out.append(pending);
    out
}

fn copy_range<S: Copy>(v: &[S], from: usize, to: usize) -> (r: Vec<S>)
    requires
        from <= to <= v@.len(),
    ensures
        r@ == v@.subrange(from as int, to as int),
{
    let mut r: Vec<S> = Vec::new();
    let mut k = from;
    while k < to
        invariant
            from <= k <= to <= v@.len(),
            r@ == v@.subrange(from as int, k as int),
        decreases to - k,
    {
        r.push(v[k]);
        k += 1;
        assert(r@ =~= v@.subrange(from as int, k as int));
    }
    r
}

} // verus!
