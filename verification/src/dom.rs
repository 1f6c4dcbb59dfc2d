//! Read access to the `dom-cat` document the painter consults for text.
//!
//! The document is kept as `dom-cat` builds it. Its contents are named by
//! two spec functions, and the two lookups the painter makes are trusted
//! wrappers stated over those names.

use vstd::prelude::*;

use dom_cat::{Document, Node, NodeId};

verus! {

/// `dom_cat::Document`, held opaquely.
#[verifier::external_type_specification]
#[verifier::external_body]
pub struct ExDocument(dom_cat::Document);

/// `dom_cat::NodeId`, held opaquely.
#[verifier::external_type_specification]
#[verifier::external_body]
pub struct ExNodeId(dom_cat::NodeId);

/// The children lists of a document: for every node the document holds,
/// the ids that `Node::children` gives for it, in order (empty for text
/// and comment nodes).
pub uninterp spec fn dom_children(doc: Document) -> Map<NodeId, Seq<NodeId>>;

/// The text nodes of a document: for every text node the document holds,
/// its content.
pub uninterp spec fn dom_texts(doc: Document) -> Map<NodeId, Seq<char>>;

/// The children of `id`, or `None` when the document holds no node `id`.
///
/// Calls `Document::get` and `Node::children`. Trusted: `Some` exactly when
/// `dom_children` has `id`, and then the ids are the ones it lists.
#[verifier::external_body]
pub(crate) fn node_children(doc: &Document, id: NodeId) -> (r: Option<Vec<NodeId>>)
    ensures
        r is Some <==> dom_children(*doc).contains_key(id),
        r matches Some(v) ==> v@ == dom_children(*doc)[id],
{
    match doc.get(id) {
        Some(node) => Some(node.children().to_vec()),
        None => None,
    }
}

/// The content of `id` when it is a text node of the document.
///
/// Calls `Document::get` and `TextData::content`. Trusted: `Some` exactly
/// when `dom_texts` has `id`, and then the content is the one it gives.
#[verifier::external_body]
pub(crate) fn node_text(doc: &Document, id: NodeId) -> (r: Option<String>)
    ensures
        r is Some <==> dom_texts(*doc).contains_key(id),
        r matches Some(s) ==> s@ == dom_texts(*doc)[id],
{
    match doc.get(id) {
        Some(Node::Text(t)) => Some(t.content().to_owned()),
        Some(Node::Document(_)) => None,
        Some(Node::Element(_)) => None,
        Some(Node::Comment(_)) => None,
        None => None,
    }
}

} // verus!
