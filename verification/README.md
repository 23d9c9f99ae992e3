# resc_client

The Ubuntu side of Remote Extended Screen: a client that receives an
H.264/HEVC stream of a virtual display from a Mac host over the LAN, decodes
and shows it full-screen, and sends cursor and input events back.

## Layout

- `src/` is the library, verified with Verus. Every public function carries a
  `requires`/`ensures` contract over spec models of its data; the public
  `proof fn`s state the properties that hold across calls.
  - Wire formats: `le`, `binary` (video chunk and cursor packets), `v3wire`
    and `v3dispatch` (control-plane frames and the session phase machine),
    `control`, `harness` (receiver-harness framing and acknowledgements).
  - Video path: `jitter` (frame assembly from UDP chunks), `annexb` (NAL
    splitting and parameter-set extraction), `video` (decoder state and
    recovery), `loop_engine` and `backend` (decode-loop engine over any
    decoder backend), `ordinals` and `ledger` (frame identity tracking).
  - Decoder experiments and diagnostics: `experiment`, `doctor`, `verdict`,
    `clocksync`, `jsonl`, `profile`, `buildinfo`, `json`, `cli`.
  - Input and presentation decisions: `input`, `cursor`, `session`,
    `receiver`.
- `app/` is the program around the library: argument parsing, sockets, files,
  FFmpeg and SDL2, and the loops that perform what the library decides.
- `tests/` runs the library on concrete inputs.
