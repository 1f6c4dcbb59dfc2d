# paint_cat

Display-list construction for a box-model layout: walks a tree of layout
boxes in document order and emits, per box, a background fill (unless the
background is transparent), the positive border edges (top, bottom, left,
right; none at all when every width is zero) and the box's trimmed text,
with child boxes painting after their parent.

- `src/` is the verified library. `painter.rs` holds the walk, the spec
  functions that say what it emits, and its laws; `text.rs` the joining and
  trimming of text content; `dom.rs` the read access to the `dom-cat`
  document; `display_list.rs`, `command.rs`, `model.rs`, `error.rs` the
  types.
- `app/` turns `layout-cat` trees into the library's box nodes and the
  library's paint operations into rectangles, colours and font sizes: the
  floating-point side.
- `tests/` runs the painter on real HTML/CSS layouts and on hand-built
  box trees.
