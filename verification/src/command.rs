//! `PaintOp`: one paint command, with the geometry left to the renderer.

use vstd::prelude::*;

verus! {

/// One edge of a box's border.
#[derive(Clone, Copy, Debug, PartialEq, Eq, Structural)]
pub enum Side {
    Top,
    Right,
    Bottom,
    Left,
}

/// One paint command for the box tagged `key`. The renderer turns it into
/// geometry: the padding box for a background, a strip of the border box
/// for an edge, the content box for text.
#[derive(Clone, Debug, PartialEq, Eq)]
pub enum PaintOp {
    /// Fill the padding box with the background colour.
    Background { key: usize },
    /// Fill one border edge with the text colour.
    Border { key: usize, side: Side },
    /// Render `text` in the content box with the text colour.
    Text { key: usize, text: String },
}

/// What a `PaintOp` denotes, with its text as a character sequence.
pub enum PaintOpView {
    Background { key: usize },
    Border { key: usize, side: Side },
    Text { key: usize, text: Seq<char> },
}

impl View for PaintOp {
    type V = PaintOpView;

    open spec fn view(&self) -> PaintOpView {
        match self {
            PaintOp::Background { key } => PaintOpView::Background { key: *key },
            PaintOp::Border { key, side } => PaintOpView::Border { key: *key, side: *side },
            PaintOp::Text { key, text } => PaintOpView::Text { key: *key, text: text@ },
        }
    }
}

/// The views of a sequence of commands.
pub open spec fn ops_view(ops: Seq<PaintOp>) -> Seq<PaintOpView> {
    ops.map_values(|o: PaintOp| o@)
}

} // verus!
