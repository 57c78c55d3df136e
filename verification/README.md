# Murmur

Voice typing that never leaves your machine: hold a key, speak, release, and the
text lands wherever your cursor already is.

This crate is the logic of it, written in Rust and verified with Verus. Every public
function in `src/` carries a contract, and the contracts are proved: what a
transcript is turned into, what the session does on every event, which key types
which character, where a percentile lies, what each command prints.

## Layout

- `src/` is the library. It reads no clock and touches no device: moments, samples,
  key events and file listings arrive as plain values, and what is to be done with
  them leaves as plain values.
  - `session`, `text`, `engine`, `partials`, `stats`: dictation itself, with what
    holds of it in `session_laws`, `history_laws`, `text_laws` and `engine_laws`
  - `keymap`, `uinput`, `hotkey`, `inject`, `selftest`: keyboards and the clipboard
  - `audio`, `recorder`, `resample`, `vad`: what is kept of a recording
  - `asr`, `mock`, `models`, `parakeet`, `streaming`, `cuda`: transcribers and their
    weights
  - `config`, `settings`, `install`, `listen`, `doctor`, `report`, `tools`,
    `terminal`, `overlay`, `tray`, `icon`: the commands and what the user sees
  - `time`, `paths`, `chars`, `order`: moments and spans, paths, characters and words,
    sorting
  - `single`, `single_laws`: single-precision arithmetic worked out on integers
  - `outside`: the few calls into unverified code, with what is taken on trust of each
- `tests/` runs the library on concrete values, with the real outside crates.
- `app/` is the program around it: arguments, devices, files, threads, windows, and
  the floating-point work on samples.
