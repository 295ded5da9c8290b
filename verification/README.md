# schedule_core

Core data model of a convention schedule, written in Verus and proved
against its contracts.

- `src/` — the verified library:
  - `ids`, `id_text` — non-nil UUIDs, runtime entity ids and their
    `"<type>:<uuid>"` text form.
  - `field`, `value`, `field_set` — field metadata and the per-entity field
    registry with name/alias lookup and batch resolution.
  - `edge` — half-edge descriptors, full edges, the bidirectional edge map
    (`edge::map`, with its laws in `edge::laws`) and the transitive closure
    cache (`edge::cache`).
  - `edge_descriptor`, `edge_crdt` — relationship descriptors and canonical
    CRDT ownership.
  - `edit` — reversible edit commands over the entity store
    (`edit::command`, with the law that a command's inverse restores the
    store in `edit::undo`), find-or-create plans for rooms, presenters,
    panel types and tagged presenter cells (`edit::plan`), edit distance,
    value fingerprints and candidate matching for imports, tagged presenter
    parsing, the undo/redo history and the edit context that keeps a
    schedule with its history and dirty counter.  `edit::session` is the
    command-based facade: an entity store with undo and redo stacks of
    commands and the laws that undo and redo give the store back.
    `edit::editor` applies
    schedule edits (rooms, presenters, panel types, group relationships)
    with an undo and a redo stack, and runs the find-or-create operations
    and tagged presenter cells against it (`edit::editor_laws`: undoing
    an edit that only adds or replaces gives the schedule back);
    `edit::builder` builds
    entities under a UUID preference (exact, preferred, name-based or
    fresh) and binds an import row to an existing entity or builds a new
    one.
  - `edge::laws` also states that every edge operation keeps neighbour
    lists free of repeats (for `set_neighbors`, given a list without
    repeats).
  - `event_room`, `extra_field`, `lookup` — the event-room entity and extra
    data columns.
- `tests/` — executable tests of the library.
- `app/` — plain Rust around the library: serde forms, displayable errors,
  link-time descriptor registries and `uuid` conversions.
