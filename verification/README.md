# jw — jj workspace picker

`jw` is a small terminal picker for [Jujutsu](https://github.com/jj-vcs/jj) workspaces:
fuzzy-filter the list, press Enter, and the shell integration `cd`s into the chosen
workspace. The picker's logic is a library verified with Verus; the executable around it
does the terminal, file, process and network work.

## Layout

- `src/` — the verified library.
  - `text.rs`: character-level helpers (trim, split, lines, find, replace) with their specs.
  - `keymap.rs`: key events, key-string parsing, bindings and their resolution.
  - `fuzzy.rs`: ranking names against a query with the skim matcher of `fuzzy-matcher`.
  - `jj.rs`: the `jj workspace list` row template and its parser, jj argument lists.
  - `config.rs`: configuration values and their defaults.
  - `app.rs`: the picker's state machine (filter, selection, modes, preview cache).
  - `ui.rs`: what the screen shows (rows, flags, header, counts, overlay placement).
  - `shell.rs`: the shell shims and the idempotent rc-file install.
  - `selfupdate.rs`: release naming, the update decision, checksum checking.
  - `ops.rs`: how a new workspace is seeded from an existing bookmark.
  - `cli.rs`: the command-line decisions (switch targets, remove guard, prompts).
- `tests/` — tests of the library.
- `app/` — the `jw` binary: clap, crossterm/ratatui, config file loading, `jj` processes,
  directive files and self-update downloads.

Run `jw config shell init zsh` (or `bash`, `fish`) and `eval` its output in the shell's rc
file to get cd-on-exit.
