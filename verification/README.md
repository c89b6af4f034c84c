# sim_platform

Platform capsules for SIM: the fail-closed rules by which each host site
(Ubuntu PC and Raspberry Pi, Windows, macOS, WASI, Android, Halo glasses,
Amazfit watches) offers its services, admits its packages and bundles, and
runs its proxies and sessions. The library is written in Verus, and its
functions in `src/` carry contracts that Verus proves.

Layout:

- `src/manifest.rs` — package roles, capsule and bundle records and their validation.
- `src/records.rs`, `src/digest.rs`, `src/text.rs`, `src/scan.rs`, `src/package.rs` —
  platform cards, content digests (FNV-1a and SHA-256), text helpers and the
  shared package texts.
- `src/halo.rs`, `src/amazfit.rs` — wearable proxies: the fragment codec and
  reassembly, consent and lifecycle gates, replay refusal.
- `src/windows.rs`, `src/macos.rs` — desktop capsules: path membrane,
  capability-gated native services, cards and unsigned packages.
- `src/ubuntu_pc.rs`, `src/ubuntu_rpi.rs`, `src/ubuntu_process.rs` — Ubuntu
  cards, physical and build attestations, Pi profiles, process authority.
- `src/wasi.rs` — the closed WASI import profile and capsule.
- `src/android_audio.rs`, `src/android_speech.rs` — Android audio routing and
  local speech state machines.
- `src/process.rs`, `src/model_process.rs`, `src/sqlite.rs` — process attempts,
  output budgets, the scripted model process port, SQLite catalog pragmas and
  column affinity.
- `src/host_dir.rs`, `src/find.rs`, `src/text_edit.rs` — the table
  directory: the in-memory host-directory model with its quota, bounded grep
  and glob search over relative paths, exact and line-range text edits.
- `src/local_check.rs` — what an execution of a checked command proves and
  the verdict an independent observation of its outputs gives.
- `src/viture.rs` — the modeled glasses transport: a bounded sample queue
  with start, reconnect and cleanup.
- `app/` — the host edges: TOML and JSON codecs, package resources read from
  disk, process spawning and environment capture, the shared in-memory mount
  and the directory walk behind searches.
- `tests/` — tests of the library through its public interface.
