# octos-tui core

The verified core of the octos terminal UI, written in Verus. Every function
in `src/` carries a `requires`/`ensures` contract that Verus proves; the few
calls into outside crates (`sha2`, `shlex`, `unicode-width`, `serde_json` with
`uuid`) sit behind small trusted wrappers whose contracts are documented where
they are declared.

Layout:

- `src/text.rs` — character-sequence helpers (decimal rendering, whitespace,
  trimming, ASCII case, substring search, line splitting).
- `src/clipboard.rs` — the OSC 52 copy sequence (RFC 4648 base64, payload cap
  at a UTF-8 boundary, tmux passthrough), what a copy takes from the session,
  and the decisions behind reading a bitmap from the system clipboard.
- `src/model.rs` — application state: focus, run state, activity feed, the
  artifact / workspace / git / diff-preview panes, task output, session and
  task selection, composer drafts.
- `src/snapshot.rs` — seeding the panes from a bootstrap snapshot, hydrating
  them from protocol pane snapshots, diff-preview ids in task text.
- `src/doctor.rs` — `octos-tui doctor`: the checks, the grouped report, the
  exit code, the protocol-skew comparison.
- `src/wizard.rs` — first-run wizard progress (`Step N of M`, checklist), worded by a
  `WizardLocale` of translated texts.
- `src/i18n.rs` — filling the `%{name}` placeholders of translated templates.
- `src/insert_history.rs` — word wrapping to the viewport width and the
  terminal operations that push finalized rows into scrollback.
- `src/viewport.rs` — which committed messages still have to be flushed.
- `src/keymap.rs` — key-binding reference strings.

`tests/` exercises the library on concrete values; `app/` holds the program
around it (argument handling, environment, processes, files, escape-sequence
writing with crossterm, JSON forms with serde).
