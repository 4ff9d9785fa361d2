# sassytalkie

A push-to-talk walkie-talkie library whose logic is proved with Verus:
wire formats, session bookkeeping, the audio queue and mixer, key handling
and the security checks of the desktop and iOS clients.

## Layout

- `src/` — the verified library. Each module states its behaviour in
  `requires`/`ensures` contracts over mathematical models (`Seq`, `Map`,
  spec functions) and proves it.
  - `protocol`, `wire`, `control`, `ios_control` — TLV control frames,
    the audio wire frame and heartbeats.
  - `packet`, `transport`, `peers` — the desktop multicast packets with
    their CRC-32, peer discovery and what each received packet does.
  - `audio_cache`, `rx_pool`, `rt_queue` — live/queue/mix playback,
    per-sender receive state and the bounded real-time queue.
  - `crypto`, `pqc`, `sealed`, `vault`, `der` — AES-GCM and X25519 use,
    the hybrid ML-KEM exchange, relay room ids, the sealed secret blob and
    the certificate pin.
  - `security`, `device_checks` — profile and device integrity decisions.
  - `ios_audio`, `ios_bluetooth`, `ios_state` — the iOS audio rings,
    Bluetooth bookkeeping and push-to-talk state machine.
  - `cohort_history`, `cellular`, `liveness`, `heartbeat` — session
    history, relay settings, peer liveness and the heartbeat receive and
    emit steps that feed it.
- `tests/` — tests run against the compiled library.
- `app/` — the desktop runner: sockets, files, system reads, JSON and
  bincode encoding, and the floating-point mixer gain and tones.

Calls into outside crates (hashing, AEAD, key exchange, base64, CRC-32,
ML-KEM, JSON, ring buffers) go through small trusted wrappers whose
contracts say what the crate documents.
