# editor_core

The version-control and appearance logic of a code editor, written in Verus
and proved against its contracts.

- `src/lcs.rs` — longest common subsequence of two texts' lines, with the
  proof that the walk-back finds a longest one.
- `src/diff_lines.rs` — diff lines and the line diff of two texts, with the
  proofs that a diff gives back both texts and numbers its lines right.
- `src/patch.rs` — classification of the lines of a patch printed by git2.
- `src/changes.rs` — which delta describes a file, where image contents are
  read from, and the diff handed to the editor, including the diff of an
  unsaved buffer against the index or HEAD.
- `src/theme.rs` — themes, the theme cache kept by id, theme-file
  gathering, and the reading of the desktop's light or dark preference.
- `src/text.rs` — text primitives (lines, trimming, searching, base64) and
  the trusted wrappers around std and base64.

`app/` holds the commands that touch the repository, the file system,
processes and the shared cache lock, calling into the library for every
decision.
