# sysprobe

Terminal system intelligence for local machines: snapshots, process ranking,
a live dashboard, threshold alerts, daemon exports and a rolling history.

## Layout

- `src/` — the verified library (Verus):
  - `float.rs`: `f32`/`f64` values held by their bit patterns; IEEE comparisons,
    `total_cmp` keys, rounding for the CPU chart and `{:.1}` formatting.
  - `snapshot.rs`: one sample of the machine; UTC instants (through chrono).
  - `history.rs`: the bounded history of samples and its metric series.
  - `alert.rs`: the alert engine (sustained thresholds, recovery hysteresis) and its step laws.
  - `alert_laws.rs`: laws over sequences of evaluations, rule by rule.
  - `collectors/`: process ranking, `/proc/net/tcp` parsing, network and disk figures.
  - `config.rs`, `cli.rs`, `daemon.rs`: settings defaults, command selection, alert rules.
  - `text.rs`, `ui/`: lines, words, decimal and padded text; the report tables;
    the dashboard's quit key.
- `app/` — the program around it: command-line parsing (clap), reading the
  machine (sysinfo, `/proc`), the daemon loop (tokio, tracing), JSON and TOML
  (serde), and the terminal dashboard (ratatui, crossterm).
- `tests/` — tests of the library.
