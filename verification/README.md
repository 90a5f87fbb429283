# zcode-speed-panel

A panel that shows how fast the ZCode CLI generates tokens and how many it has
used today. This library holds its logic, verified with Verus; `app/` is the
program around it.

## Layout

- `src/metrics`: the calls of the day, taken in once each from the usage
  database; their totals and speeds; whether a call is running.
- `src/liveio`: the live speed. Samples of the bytes that processes write become
  cleaned ticks (`rows`), the ticks of a finished call become the coefficient from
  bytes to tokens (`calibration`), and each poll (`state`) shows the ticks of the
  last half minute divided by it. `rings` keeps the samples, `sessions` which
  process writes for which session, `platform` reads what the systems tell.
- `src/panel.rs`: one poll of everything, and what is shown of it.
- `src/window.rs`: the two modes of the window, their places, maximizing.
- `src/snapshot_guard.rs`: the guard of the snapshot folder.
- `src/updater.rs`: versions, releases and downloads.
- `src/debug_log.rs`, `src/paths.rs`: the log, and where files are.
- `src/json.rs`, `src/clock.rs`: what `serde_json` and `chrono` are relied upon for.
- `src/text.rs`, `src/order.rs`, `src/exact.rs`, `src/speed.rs`, `src/sums.rs`:
  texts, ranks, fractions, speeds and sums.

The files named `laws.rs`, and the public proof functions of the other files,
state what holds of several functions together.

## Numbers

Nothing is rounded. Bytes are counted in thousandths, and speeds, coefficients and
the share of a tick that a span of time cuts are fractions (`exact`) whose parts
have no limit; contracts speak of them as real numbers. `app/` turns them into
floating-point numbers where they are shown.
