# PugDock core

PugDock is a desktop workspace for developers: files, notes and project
context kept in a local folder and synced to a private GitHub repository,
with optional Anthropic-powered AI.

This crate is its core, written in Verus. Every decision the app makes —
which paths a workspace may touch, how the configuration and the synced
workspace registry evolve, how `git` output reads and which commands the
sync flows run, which fields of GitHub's and the AI provider's JSON answers
are read, how search queries are quoted, how themes are named and merged,
which update is offered — is an executable function with a contract that
Verus proves. Answers that serde turns whole into the app's own types (the
signed-in user, organizations, device codes, theme documents) are decoded
in `app/`.

## Layout

- `src/` — the verified library
  - `error.rs` — the errors the UI sees, with their codes and messages
  - `workspace.rs` — configuration, path sandboxing, the workspace registry,
    file-command decisions, base64, the diagnostics report
  - `tree.rs` — which entries the file tree shows and in which order
  - `git_sync.rs` — git arguments, porcelain status and log parsing, the
    "local only" block of `.gitignore`, the sync-flow decisions
  - `search.rs` — what is indexed, FTS5 query quoting, merging results
  - `secrets.rs` — the OS credential store, behind `keyring`
  - `theme.rs` — JSONC, paths inside `.vsix` packages, theme names, merging
  - `update.rs` — version ordering and the release to offer
  - `integrations/github.rs` — sign-in flows and REST answers
  - `integrations/anthropic.rs` — credentials, the assistant CLI's runs and
    stream, and API answers
  - `json.rs` — single values read out of JSON texts, behind `serde_json`
  - `text.rs` — character-level building blocks shared by the parsers
- `tests/` — tests of the library on concrete values
- `app/` — the Tauri shell: commands that do the disk, process and network
  work and hand plain values to the library
