//! Display-list construction for the paint stage.
//!
//! The painter walks a tree of layout boxes in document order and emits,
//! for each box, its background, its border edges and its text, with child
//! boxes painting after their parent. Boxes reach the painter as
//! [`BoxNode`]s: what it reads of a layout box (its DOM node, whether its
//! background is transparent, how each border width compares with zero,
//! its children) as plain values. Text comes from the `dom-cat` document
//! itself. The commands it emits, [`PaintOp`]s, name the box they are for
//! and leave the geometry to the renderer.

use vstd::prelude::*;

pub mod command;
pub mod display_list;
pub mod dom;
pub mod error;
pub mod model;
pub mod painter;
pub mod text;

pub use command::{PaintOp, Side};
pub use display_list::DisplayList;
pub use error::Error;
pub use model::{BorderWidths, BoxNode, EdgeWidth};
pub use painter::build;
pub use text::{is_white_space, painted_text, trim};

