# obd_io

OBD-II diagnostics for ELM327 / STN adapters over USB serial or Bluetooth SPP,
with SAE J1979 decoding, vehicle profiles, and a capture format that replays
offline. Default mode is read-only: clearing trouble codes is refused unless
writes were enabled on the session.

## Layout

- `src/` — the library, verified with Verus. Every public function states its
  result in `ensures`; the laws of the library are public proof functions.
  - `j1979/` — PID table and decode formulas (exact rationals), DTC and VIN
    parsing, request builders.
  - `transport/` — the `Transport` trait, frames, replay of captures, the
    decisions of the serial and Bluetooth adapters (reply cleaning, identity,
    protocol lock, prompt reading), endpoint discovery and the connection plan.
  - `session.rs` — a vehicle session over any transport, recording into a
    capture; `modules.rs` — read-only module probes and STN bus selection.
  - `capture.rs`, `sample.rs` — the in-memory capture and the sample fixture.
  - `profile.rs` — vehicle profiles and PID table resolution.
  - `bus.rs`, `dashboard.rs`, `error.rs`, `order.rs`, `text.rs` — shared types,
    UI state rules, errors, ordering and text specifications.
- `app/` — the `obdtui` program: serial ports, RFCOMM sockets, files, the
  terminal UI and the vector HUD window (`--mfd`).
- `tests/` — tests of the library.
