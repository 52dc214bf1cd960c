# gpui-preview

A Storybook-like component preview tool for GPUI. This crate is its
verified core, written in Verus:

- `types`: prop-editor controls (`ControlKind`), field values (`FieldValue`)
  and field metadata; floats are carried as IEEE-754 bit patterns.
- `json`, `stories`: the JSON form of field values, the stories store
  (component → story → field → JSON) and its save/delete/lookup operations.
- `panel`: the story panel's decisions (save, update, delete, apply a story,
  snapshots of field values).
- `navigation`, `ordering`: keyboard navigation, sorting of the component
  list, sidebar search and grouping, viewport presets.
- `derive`: the analysis behind `#[derive(Previewable)]`, on a model of the
  type definition.
- `capture`: BGRA → RGBA conversion of captured frames.
- `text`, `text_map`: text operations and text-keyed maps. `TextMap` stands
  in for `HashMap<String, _>`: vstd specifies `HashMap` only for keys that
  obey its key model (integers, `bool` and boxed integers), not `String`.

`app/` holds what Verus does not check: the stories file I/O with
`serde_json`, PNG output with `image`, the component registry with
`inventory`, a controller around type-erased components, and the code
generator of the derive with `syn`/`quote`.
