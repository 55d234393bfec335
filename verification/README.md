# whisper_rt

Realtime streaming speech-to-text. Audio comes in as 16 kHz mono PCM (from
a microphone, a file, or a WebSocket client), a speech gate cuts it into
utterances, partial decodes show text while someone speaks, and a final
decode commits each utterance to the transcript.

## Layout

- `src/` — the library, verified with Verus: the speech gate, the utterance
  ring buffer, the session state machine (what to decode, when, and what to
  send back), LocalAgreement-2 for stable partials, the transcript, the word
  error rate, the zipformer token assembly and model-file choice, the thread
  budget rules, PCM decoding and the settings helpers. Each public function
  states its result in its contract; the laws that relate several calls are
  public proof functions (`lemma_*`).
- `tests/` — tests of the library on concrete values.
- `app/` — the program around it: whisper.cpp and sherpa-onnx engines, the
  Silero and energy VADs, resampling and audio decoding, microphone capture,
  the axum server and the command line. It drives `session::Session`: it
  feeds PCM, scores the probe chunks the session hands back, reports each
  frame's verdict, runs the decodes the session asks for, and passes their
  outcomes back for the session to turn into events.

Run `whisper-rt serve` for the server (settings in `config/default.toml`,
overridable with `WHISPER_RT__...` environment variables), or `whisper-rt`
with `--file` or without it (microphone) for the terminal.
