# handlr-gui

A GTK4 front end for the `handlr`
CLI: it shows the default applications of MIME types as a tree of categories,
exceptions and alternative handlers, edits them with undo and redo, tests which
program opens a given path, URL or MIME type, and edits the regex handlers and settings
of `handlr.toml`.

The decisions are made by a library verified with Verus; the program around it
runs `handlr`, reads and writes files and builds the widgets.

Batch groups (such as all video types) show their types and handlers, and each type's
own handler can be set or changed, but two batch actions are not offered: setting one
handler for every type of a group, and dropping a type's own handler so that it falls
back on the group's. No undoable command pair is defined for them.

## Layout

- `src/` — the verified library.
  - `undo.rs` — the command pairs of each action (what runs, what reverts it) and
    their meaning on a table of associations.
  - `app_state.rs` — the association snapshot with bounded undo and redo histories.
  - `model.rs`, `tree_view.rs`, `row_actions.rs` — the Defaults tree: the fixed
    outline, the rows built from the state, children, keys, buttons and their actions.
  - `handlr.rs` — what the library makes of `handlr` output and error text.
  - `tester.rs` — regex handlers and the resolution of a tested input.
  - `config.rs` — `handlr.toml` through `toml_edit`, keeping what it does not edit.
  - `sort.rs`, `text.rs` — stable sorting and string helpers.
- `tests/` — tests of the library.
- `app/` — the GTK program: subprocesses, files, environment and widgets.
