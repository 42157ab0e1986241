# wavebase

The core of WaveBase, an audio library manager for music producers, written
in Verus. The public functions of `src/` carry contracts that Verus proves;
the few calls into the standard library that the proofs rest on stand in
small wrappers whose contracts are stated, not proved (`src/text.rs`,
`src/paths.rs`).

## Layout

- `src/parser.rs` — reads tempo, key, track type, `@artists` and a track name
  from a file name (`Kick_Loop_140bpm_Dm_@user.wav`), and normalizes keys
  (`Dm` → `D Minor`, `Bbm` → `Bb Minor`, `C# minor` → `C# Minor`). Laws: tempos lie in 60..=300, keys are in normal form,
  track types are one of `Loop`, `Beat`, `Stem`, `OneShot`, matching ignores
  case, track names are trimmed and never empty.
- `src/playback.rs` — the state machine of the audio thread: start, toggle,
  pause, resume, stop, seek, and the reported status and position. Laws:
  exactly one of playing/paused/stopped, the position never passes the
  duration, paused time does not count, toggling twice returns to playing,
  a stop resets everything, seeks land within the file, and every operation
  keeps the state invariant (no file means stopped; paused time never
  exceeds elapsed time).
- `src/tagging.rs` — what background tagging decides for a scanned file:
  which analyses to run, what to write back, which tags to link, and how the
  files are shared among the worker threads.
- `src/library.rs` — the tag filter query and its distinct names, the
  escaped `LIKE` pattern and the whole-component test for removing a scan
  root, preset-tag protection and listing defaults.
- `src/calendar.rs` — Gregorian dates from day numbers, for the
  modification-time text.
- `src/scanner.rs`, `src/config.rs`, `src/models.rs`, `src/error.rs` — audio
  file recognition, modification-time text, data paths, records and errors.
- `src/text.rs`, `src/format.rs`, `src/paths.rs` — character-level helpers
  (word splitting, trimming, decimal parsing and printing) and the calls into
  the standard library that they rest on.
- `app/` — the Tauri application around the library: commands, SQLite
  database, Rodio audio output, Symphonia decoding, stratum-dsp analysis.
- `tests/` — tests of the library on concrete values.
