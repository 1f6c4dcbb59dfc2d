//! The layout boxes the painter walks, as plain values.

use vstd::prelude::*;

use dom_cat::NodeId;

verus! {

/// How one border edge's width compares with zero.
#[derive(Clone, Copy, Debug, PartialEq, Eq, Structural)]
pub enum EdgeWidth {
    /// The width equals zero.
    Zero,
    /// The width is greater than zero.
    Positive,
    /// Neither: a negative width, or one that is not a number.
    Other,
}

/// The four border edges of a box.
#[derive(Clone, Copy, Debug, PartialEq, Eq, Structural)]
pub struct BorderWidths {
    pub top: EdgeWidth,
    pub right: EdgeWidth,
    pub bottom: EdgeWidth,
    pub left: EdgeWidth,
}

/// One layout box, holding what the painter reads of it.
pub struct BoxNode {
    /// The caller's tag for the layout box this node stands for; it is
    /// carried into every command painted for the box.
    pub key: usize,
    /// The DOM node the box was generated from.
    pub dom_node: NodeId,
    /// Whether the box's background colour has alpha zero.
    pub background_transparent: bool,
    /// The box's border widths.
    pub border: BorderWidths,
    /// The child boxes in source order.
    pub children: Vec<BoxNode>,
}

} // verus!
