# git_forum

`git forum` keeps discussion threads (RFCs, tasks, decisions) as refs in a
git repository. This crate is its core, written in Verus: every function in
`src/` carries a `requires`/`ensures` contract that Verus proves, and the
laws that span several functions are public proof functions (`lemma_*`).

## Layout

- `src/text.rs` — character-sequence helpers and their spec functions
  (lines, joins, splitting, replacing, decimal text, lexicographic order,
  tallies).
- `src/internal/` — the data model and rules:
  - `event.rs` — statuses, lifecycles, the transition graph, shortest
    paths, legacy state names, and the typed projection of stored events;
  - `id_alloc.rs`, `id.rs`, `clock.rs` — identifiers and instants;
  - `snapshot.rs` — the snapshot document of a thread: how a new thread's
    document is built and how a legacy thread projects onto one;
  - `toml_doc.rs` — whether a text is TOML, and the strings read from it;
  - `policy.rs`, `hook.rs`, `diff.rs`, `editor.rs`, `evidence.rs`, ... —
    guards, commit-message parsing, revision choice, editor text, evidence;
  - `commands/` — what each command decides and prints: `show`, `ls`,
    `brief`, `doctor`, `diff`, `migrate`, `verify`, bulk transitions,
    hooks, GitHub import and export.
- `tests/` — tests of the library on concrete values.
- `app/` — the command-line program. It runs `doctor`, `diff`, every
  `hook` sub-command (install, uninstall, check-commit-msg, fix-index,
  worktree-init) and the `help` pages: it runs git, reads and writes
  files, and prints, and leaves every decision to the library. The other
  commands exist in the library as their decisions and texts only; the
  program does not run them. Its doctor does not replay event chains, so
  it reports no strict-replay issues.

Calls into outside crates (`sha2`, `chrono`, `crossterm`, `toml`) and
into the parts of std that Verus does not specify stand behind small
`#[verifier::external_body]` wrappers whose doc comments say what their
contracts claim.
