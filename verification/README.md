# assured_fusion

The verified core of an edge assurance and fusion layer: observations from
heterogeneous sources are gated, associated with tracks, scored, and every
change to a track is written to an append-only provenance log that can answer
"why does this track exist?", "which observations contributed?", "which source
lowered confidence?" and "what changed since the previous version?".

## Layout

- `src/` — the library, written in Verus and proved against its contracts.
  - `model`, `ids`, `time`, `text` — the canonical objects, typed identifiers,
    logical time, and decimal rendering.
  - `validate` — the observation validator, first failing check wins.
  - `provenance` — the append-only store and the four provenance questions.
  - `engine` — staleness gating, association outcomes, conflict preservation,
    publication with provenance and cues, operator feedback. Its invariant
    makes every live track traceable through the log.
  - `confidence` — the reason-code and calibration decision table.
  - `replay`, `metrics` — the replay schedule, configuration, tallies and the
    whole-number side of the eight evaluation metrics.
  - `api` — response shapes, provenance answers, HTTP status mapping.
  - `rng`, `clock` — the SplitMix64 stream and the injected clocks.
- `app/` — the HTTP service, scenario files, JSONL persistence, and the
  floating-point parts (kinematics, confidence arithmetic, generators, rate
  limiting) that hand plain values to the library.
- `tests/` — executable tests of the library.

Real quantities that the library only compares or carries are held as
`Magnitude`, the bit pattern of a non-negative `f64`, whose integer order is
the order of the values.
