# rt_voice_wasm

Building blocks of a real-time speech pipeline and voice agent, with their
behaviour stated as Verus contracts and proved.

## Layout

- `src/` — the verified library.
  - `audio` — G.711 μ-law decoding and 8→16 kHz upsampling, little-endian
    PCM decoding, channel downmixing, and a fixed-capacity PCM ring.
  - `wav` — 16-bit PCM WAV parsing from bytes.
  - `augment` — deterministic augmentations: pause, stutter, segment
    reversal, concatenation.
  - `stream` — analysis windows over incoming audio and the merging of
    overlapping transcripts.
  - `agent` — the rule router, the order-taking state machine and the JSON
    action protocol of external agents.
  - `call` — how a call's state moves on transcripts and agent actions.
  - `transport` — events, base64 and Twilio Media Streams messages.
  - `text`, `json`, `config`, `engine` — shared helpers and interfaces.
- `tests/` — tests of the library on concrete values.
- `app/` — the programs around the library: the WebSocket call server,
  live captions from a microphone or WAV file, a WebSocket sender, the
  speech-to-text engine bindings, and the floating-point audio steps
  (resampling, speed-up, silence gate, random augmentation).

Each public function's `ensures` states its result over spec functions;
the public `lemma_*` proof functions state the laws that relate them.
