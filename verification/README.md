# grimdock

The layout model of an IDE-style dock for [egui](https://github.com/emilk/egui):
panes split, resized and rearranged by dragging tabs on a single surface, with
stable pane identities, pane anchors and roles, per-pane and per-tab drop
policies, and versioned persistence.

The panes form a binary tree stored as a heap-indexed array (`PanelTree`).
Every operation on it — splitting, wrapping the root, collapsing an emptied
pane, moving and closing tabs, anchoring and removing panes, resolving and
applying drops, validating and migrating saved layouts — is written in Verus
with a contract, and proved.

## Layout

- `src/` — the verified library.
  - `tree.rs`, `tab.rs`, `style.rs`, `menu.rs`: the data types.
  - `model.rs`: the mathematical model — the layout a node array encodes,
    and how layouts are written and relocated.
  - `queries.rs`, `restructure.rs`, `edits.rs`, `anchors.rs`, `pane.rs`: the
    tree operations; `relocate.rs` moves subtrees within the array.
  - `header.rs`, `dnd.rs`: the decisions behind header interactions and
    drag-and-drop.
  - `persistence.rs`: the saved format, its validation and migration.
  - `laws.rs`: properties that span operations (what splits, wraps,
    collapses and drops do to the tabs and panes the layout shows).
- `app/` — the egui front end: layout geometry, painting, input, and the
  serde forms of the saved format.
- `tests/` — tests of the library.
