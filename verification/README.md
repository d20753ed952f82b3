# constraint-mux

Serial port multiplexer with real-time consonance analysis: serial data is
fanned out to WebSocket clients, frequencies found in it are scored on the
harmonic lattice 2^a × 3^b × 5^c, and a browser dashboard shows the result.

## Layout

- `src/` — the verified library (Verus):
  - `consonance.rs` — lattice points and their squared distance, the table of
    just intervals with the proof that each entry denotes its ratio, the
    nearest-interval search over ordered error keys, note names of MIDI
    numbers, and the symmetric hit-count grid of the heatmap.
  - `protocol.rs` — 4-byte big-endian length framing and the detection of a
    framed consonance message at the start of serial data.
  - `multiplexer.rs` — lines and trimming as `str::lines`/`str::trim` do them,
    the `F:<freq>` and `NOTE:<name>:<freq>` text formats, MIDI note messages,
    the history log capped at 5000 entries, and the serial reader's steps.
  - `websocket.rs` — what a client session does on each feed or client event,
    including the base64 encoding of serial output.
  - `dashboard.rs` — the dashboard page for a device alias.
  - `daemon.rs` — the alias a device runs under, and the demo schedule.
- `app/` — the program around it: command line, tokio tasks, serial port,
  WebSocket and HTTP servers, bincode/JSON messages, and the floating-point
  parts of the consonance model (ratios, scores, the float heatmap).
- `tests/` — tests of the library.
