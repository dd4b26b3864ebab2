# repo_sync

A menu-bar tool that keeps a folder of git repositories fast-forwarded on a
daily schedule. It never merges, rebases or rewrites: a branch only moves when
it is strictly behind its upstream, dirty working trees are stashed and
restored, and diverged branches are reported and left alone.

## Layout

- `src/` — the verified library, written in Verus. Every decision of the tool
  lives here with a contract:
  - `pull.rs` — the pull engine for one repository, as a state machine that
    takes the reply to each git operation and names the next one; its laws
    (only fast-forwards, the auto-stash is always restored, a failed restore
    keeps the stash and flags the repo, only listed branches move, the repo
    lands on its landing branch, …) are proof functions.
  - `sync.rs` — a run over every repository found, skipping the disabled ones.
  - `git.rs` — the git operations, the hardened command line they run with, and
    how their output is read.
  - `repos.rs` — repository and result types, report summaries.
  - `config.rs`, `path_map.rs` — configuration, per-repo settings, validation
    and migration of the legacy enable map.
  - `reports.rs` — report file names, the report list, retention pruning.
  - `scheduler.rs` — catch-up, next fire time, naps, the "Last sync" label.
  - `editors.rs` — known editors, detection from probes, open plans, and the
    confinement of open requests to the root folder.
  - `state.rs`, `tray.rs` — shared state and what the tray shows.
  - `text.rs` — text handling stated over `Seq<char>`.
  - `platform.rs` — the trusted calls into the clock, the environment and
    outside crates (chrono, dirs, base64, `std::path`).
- `app/` — the desktop shell around the library: Tauri commands, the tray,
  the scheduler task, file persistence, the git subprocess runner and
  serde copies of the library's types.
- `tests/` — tests of the library on concrete values.
