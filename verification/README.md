# git-transplant

Move changes around inside a stack of commits: fold a staged fix into the commit it
belongs to, absorb every hunk into the commit that owns its lines, move a file to
another commit, reword, drop, reorder, squash and split commits, and undo any of it.
Nothing is written until the whole rewrite has been replayed; then one ref moves.

## Layout

- `src/` is the library, verified with Verus. It never touches a repository. It asks
  questions about objects (`store`), decides, and hands out the few actions that move
  refs (`ops`, `rewrite`, `undo`).
  - `git`, `engine`, `recipe`: the linear stack, the replay, and the plan of each verb.
  - `patch`, `inference`, `absorb`: hunks, who owns them, and where they go.
  - `tui`: the interactive screen as a state and what each key makes of it.
  - `replay_laws`, `tree_laws`, `shape_laws`, `rewrite_laws`, `absorb_laws`, `tui/laws`: what
    holds of every run, as proof functions.
- `app/` is the program: the command line, the repository behind the questions and
  actions (`driver`), and the drawing of the screen (`screen`).
- `tests/` runs the library, most of it against real repositories in `/tmp`.

## What is trusted

The diff of two texts comes from `git2::Patch` (`src/patch.rs`), and the decoding of
bytes from the standard library (`src/text.rs`). Everything else the library knows of a
repository is an answer that the driver gives; the contracts say what is done with each
answer, whatever it is.
