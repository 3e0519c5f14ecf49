# myspace

A developer tool for multi-repository git workspaces ("spaces") built on git
worktrees: one bare clone per repo per machine, a lightweight worktree for
every checkout, branch sets that span the repos of a space, and switchable
views.

## Layout

- `src/` — the library, written in Verus. Every function carries a contract
  and is proved against it, except three trusted wrappers around outside
  calls, whose contracts are taken as given: `String::push`
  (`text::push_char`), `dirs::home_dir` (`utils::paths::home_dir`) and the
  `Debug` formatting of a string (`text::debug_quoted`):
  - `engine::target_parser` parses and resolves targets (`repo`,
    `//alias{/org}:repo`, `git@host:org/repo.git`, each with an `@ref`), with
    round-trip laws between parsing and rendering;
  - `models` holds the manifest (a name-sorted map of members), the global
    configuration and the per-machine view state;
  - `ops` holds the space layout, the checks and plans of every command, the
    managed `.gitignore` block (with the law that regenerating it replaces
    it in place), the status listing and the error messages;
  - `git::engine` holds the decisions of the git layer: trunk refs,
    credentials, free worktree names, branch holders, whether a branch
    holds unpushed work, whether a view may be re-pointed;
  - `utils` holds path arithmetic, space discovery and the registry of
    known spaces.
- `app/` — the program around it: the command line, file and git I/O
  (libgit2), locking, logging and JSON output.
- `tests/` — tests of the library.
