# tonism

Verified core of a standalone real-time guitar processor.

- `src/` — the library, verified with Verus:
  - `audio/latency.rs` — the round-trip latency meter: capture-state machine,
    per-buffer capture and impulse emission, GUI-side handle.
  - `domain/latency.rs` — the latency estimator (per-chunk peak search,
    median, strict-majority agreement, ring-latency subtraction).
  - `domain/buffer.rs` — copying one channel lane out of / into an
    interleaved buffer.
  - `device.rs` — device capability negotiation (common sample rates,
    buffer sizes, start-up choices, device lookup by name and id, the order
    in which a stream's device is resolved).
  - `gui.rs` — picker state, labels and the latency readout's per-frame
    decision; `cpal_direct.rs` — command-line options.
  - `params.rs`, `audio/xrun.rs`, `audio/log_bridge.rs`, `config.rs` —
    lock-free parameter cells, xrun counter, audio→log queue, saved config.
- `tests/` — behavioural tests of the library.
- `app/` — the program around it: cpal streams, the eframe window, the
  floating-point DSP (gain, smoother, oscillator), config persistence, and
  the `feedback` duplex passthrough (the program run under that name).

Audio samples cross into the library as the bit patterns of `f32` values.
