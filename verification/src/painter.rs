//! Walk a box tree and emit a `DisplayList`.

use vstd::prelude::*;

use dom_cat::{Document, NodeId};

use crate::command::{ops_view, PaintOp, PaintOpView, Side};
use crate::display_list::DisplayList;
use crate::dom::{dom_children, dom_texts, node_children, node_text};
use crate::model::{BorderWidths, BoxNode, EdgeWidth};
use crate::text::{
    join_parts, law_trim_ends_not_whitespace, law_trim_idempotent, painted_text, part_view,
    parts_view, trim_seq, unicode_white_space,
};

verus! {

// ---------------------------------------------------------------------
// What the painter emits
// ---------------------------------------------------------------------

/// The children of `id` in `doc`, or none when `doc` holds no node `id`.
pub open spec fn child_ids(doc: Document, id: NodeId) -> Seq<NodeId> {
    if dom_children(doc).contains_key(id) {
        dom_children(doc)[id]
    } else {
        Seq::empty()
    }
}

/// What each child of `id` contributes to its text: the content of a text
/// node, nothing for any other child.
pub open spec fn child_parts(doc: Document, id: NodeId) -> Seq<Option<Seq<char>>> {
    child_ids(doc, id).map_values(
        |k: NodeId|
            if dom_texts(doc).contains_key(k) {
                Some(dom_texts(doc)[k])
            } else {
                None
            },
    )
}

/// The text painted for the DOM node `id`: its text children joined and
/// trimmed.
pub open spec fn box_text(doc: Document, id: NodeId) -> Seq<char> {
    trim_seq(join_parts(child_parts(doc, id)))
}

/// The background command of `b`: one, unless its background is transparent.
pub open spec fn background_ops(b: BoxNode) -> Seq<PaintOpView> {
    if b.background_transparent {
        Seq::empty()
    } else {
        seq![PaintOpView::Background { key: b.key }]
    }
}

/// The command for one border edge: one when its width is positive.
pub open spec fn edge_ops(key: usize, w: EdgeWidth, side: Side) -> Seq<PaintOpView> {
    if w == EdgeWidth::Positive {
        seq![PaintOpView::Border { key, side }]
    } else {
        Seq::empty()
    }
}

/// Whether all four border edges of `b` are zero.
pub open spec fn borderless(b: BoxNode) -> bool {
    &&& b.border.top == EdgeWidth::Zero
    &&& b.border.right == EdgeWidth::Zero
    &&& b.border.bottom == EdgeWidth::Zero
    &&& b.border.left == EdgeWidth::Zero
}

/// The border commands of `b`: none when every edge is zero, else one for
/// each positive edge, in the order top, bottom, left, right.
pub open spec fn border_ops(b: BoxNode) -> Seq<PaintOpView> {
    if borderless(b) {
        Seq::empty()
    } else {
        edge_ops(b.key, b.border.top, Side::Top) + edge_ops(b.key, b.border.bottom, Side::Bottom)
            + edge_ops(b.key, b.border.left, Side::Left) + edge_ops(
            b.key,
            b.border.right,
            Side::Right,
        )
    }
}

/// The text command of `b`: one when its trimmed text is not empty.
pub open spec fn text_ops(doc: Document, b: BoxNode) -> Seq<PaintOpView> {
    let t = box_text(doc, b.dom_node);
    if t.len() > 0 {
        seq![PaintOpView::Text { key: b.key, text: t }]
    } else {
        Seq::empty()
    }
}

/// The commands for `b` itself: background, then borders, then text.
pub open spec fn own_ops(doc: Document, b: BoxNode) -> Seq<PaintOpView> {
    background_ops(b) + border_ops(b) + text_ops(doc, b)
}

/// The commands for `b` and everything under it: its own, then each
/// child's subtree in order.
pub open spec fn box_ops(doc: Document, b: BoxNode) -> Seq<PaintOpView>
    decreases b,
{
    own_ops(doc, b) + forest_ops(doc, b.children@)
}

/// The commands for a sequence of sibling subtrees, in order.
pub open spec fn forest_ops(doc: Document, bs: Seq<BoxNode>) -> Seq<PaintOpView>
    decreases bs,
{
    if bs.len() == 0 {
        Seq::empty()
    } else {
        forest_ops(doc, bs.drop_last()) + box_ops(doc, bs.last())
    }
}

/// The commands for a whole tree: none when it has no root.
pub open spec fn tree_ops(doc: Document, root: Option<BoxNode>) -> Seq<PaintOpView> {
    match root {
        Some(b) => box_ops(doc, b),
        None => Seq::empty(),
    }
}

// ---------------------------------------------------------------------
// Laws of the painter
// ---------------------------------------------------------------------

/// The boxes of the subtree under `b` in document order: `b`, then each
/// child's subtree in turn.
pub open spec fn preorder(b: BoxNode) -> Seq<BoxNode>
    decreases b,
{
    seq![b] + preorder_forest(b.children@)
}

/// The boxes of a sequence of sibling subtrees in document order.
pub open spec fn preorder_forest(bs: Seq<BoxNode>) -> Seq<BoxNode>
    decreases bs,
{
    if bs.len() == 0 {
        Seq::empty()
    } else {
        preorder_forest(bs.drop_last()) + preorder(bs.last())
    }
}

/// The own commands of each box of `bs`, one box after another.
pub open spec fn ops_of_boxes(doc: Document, bs: Seq<BoxNode>) -> Seq<PaintOpView>
    decreases bs.len(),
{
    if bs.len() == 0 {
        Seq::empty()
    } else {
        ops_of_boxes(doc, bs.drop_last()) + own_ops(doc, bs.last())
    }
}

proof fn lemma_ops_of_boxes_concat(doc: Document, a: Seq<BoxNode>, c: Seq<BoxNode>)
    ensures
        ops_of_boxes(doc, a + c) == ops_of_boxes(doc, a) + ops_of_boxes(doc, c),
    decreases c.len(),
{
    if c.len() == 0 {
        assert(a + c =~= a);
        assert(ops_of_boxes(doc, a) + ops_of_boxes(doc, c) =~= ops_of_boxes(doc, a));
    } else {
        assert((a + c).drop_last() =~= a + c.drop_last());
        lemma_ops_of_boxes_concat(doc, a, c.drop_last());
        assert(ops_of_boxes(doc, a + c) =~= ops_of_boxes(doc, a) + ops_of_boxes(doc, c));
    }
}

proof fn lemma_box_in_order(doc: Document, b: BoxNode)
    ensures
        box_ops(doc, b) == ops_of_boxes(doc, preorder(b)),
    decreases b,
{
    lemma_forest_in_order(doc, b.children@);
    lemma_ops_of_boxes_concat(doc, seq![b], preorder_forest(b.children@));
    assert(seq![b].drop_last() =~= Seq::<BoxNode>::empty());
    assert(ops_of_boxes(doc, Seq::<BoxNode>::empty()) == Seq::<PaintOpView>::empty());
    assert(seq![b].last() == b);
    assert(ops_of_boxes(doc, seq![b]) =~= own_ops(doc, b));
}

proof fn lemma_forest_in_order(doc: Document, bs: Seq<BoxNode>)
    ensures
        forest_ops(doc, bs) == ops_of_boxes(doc, preorder_forest(bs)),
    decreases bs,
{
    if bs.len() > 0 {
        lemma_forest_in_order(doc, bs.drop_last());
        lemma_box_in_order(doc, bs.last());
        lemma_ops_of_boxes_concat(doc, preorder_forest(bs.drop_last()), preorder(bs.last()));
    }
}

/// The painter walks the tree in document order: the commands for `b`'s
/// subtree are each box's own commands (background, borders, text), box by
/// box in document order.
pub proof fn law_paints_in_document_order(doc: Document, b: BoxNode)
    ensures
        box_ops(doc, b) == ops_of_boxes(doc, preorder(b)),
{
    lemma_box_in_order(doc, b);
}

proof fn lemma_forest_concat(doc: Document, a: Seq<BoxNode>, c: Seq<BoxNode>)
    ensures
        forest_ops(doc, a + c) == forest_ops(doc, a) + forest_ops(doc, c),
    decreases c.len(),
{
    if c.len() == 0 {
        assert(a + c =~= a);
        assert(forest_ops(doc, a) + forest_ops(doc, c) =~= forest_ops(doc, a));
    } else {
        assert((a + c).drop_last() =~= a + c.drop_last());
        assert((a + c).last() == c.last());
        lemma_forest_concat(doc, a, c.drop_last());
        assert(forest_ops(doc, a + c) =~= forest_ops(doc, a) + forest_ops(doc, c));
    }
}

/// Child boxes paint after their parent (back-to-front): the commands for
/// `b`'s subtree are `b`'s own, then the subtrees of the children before
/// child `i`, then child `i`'s whole subtree, then those after it.
pub proof fn law_children_paint_after_parent(doc: Document, b: BoxNode, i: int)
    requires
        0 <= i < b.children@.len(),
    ensures
        box_ops(doc, b) == own_ops(doc, b) + forest_ops(doc, b.children@.take(i)) + box_ops(
            doc,
            b.children@[i],
        ) + forest_ops(doc, b.children@.skip(i + 1)),
{
    let s = b.children@;
    let one = seq![s[i]];
    assert(s =~= s.take(i) + one + s.skip(i + 1));
    lemma_forest_concat(doc, s.take(i) + one, s.skip(i + 1));
    lemma_forest_concat(doc, s.take(i), one);
    assert(one.drop_last() =~= Seq::<BoxNode>::empty());
    assert(forest_ops(doc, Seq::<BoxNode>::empty()) == Seq::<PaintOpView>::empty());
    assert(one.last() == s[i]);
    assert(forest_ops(doc, one) =~= box_ops(doc, s[i]));
    assert(box_ops(doc, b) =~= own_ops(doc, b) + forest_ops(doc, s.take(i)) + box_ops(doc, s[i])
        + forest_ops(doc, s.skip(i + 1)));
}

/// The number of border edges of `b` whose width is positive.
pub open spec fn positive_edges(b: BoxNode) -> nat {
    (if b.border.top == EdgeWidth::Positive { 1nat } else { 0nat }) + (if b.border.right
        == EdgeWidth::Positive {
        1nat
    } else {
        0nat
    }) + (if b.border.bottom == EdgeWidth::Positive { 1nat } else { 0nat }) + (if b.border.left
        == EdgeWidth::Positive {
        1nat
    } else {
        0nat
    })
}

/// A box gets one border command per edge of positive width; with all
/// four widths positive, four: top, bottom, left, right.
pub proof fn law_one_border_command_per_positive_edge(b: BoxNode)
    ensures
        border_ops(b).len() == positive_edges(b),
        positive_edges(b) == 4 ==> border_ops(b) == seq![
            PaintOpView::Border { key: b.key, side: Side::Top },
            PaintOpView::Border { key: b.key, side: Side::Bottom },
            PaintOpView::Border { key: b.key, side: Side::Left },
            PaintOpView::Border { key: b.key, side: Side::Right },
        ],
{
    if positive_edges(b) == 4 {
        assert(border_ops(b) =~= seq![
            PaintOpView::Border { key: b.key, side: Side::Top },
            PaintOpView::Border { key: b.key, side: Side::Bottom },
            PaintOpView::Border { key: b.key, side: Side::Left },
            PaintOpView::Border { key: b.key, side: Side::Right },
        ]);
    }
}

/// The width class of side `s` of the border `w`.
pub open spec fn side_width(w: BorderWidths, s: Side) -> EdgeWidth {
    match s {
        Side::Top => w.top,
        Side::Right => w.right,
        Side::Bottom => w.bottom,
        Side::Left => w.left,
    }
}

/// The place of side `s` in the painting order top, bottom, left, right.
pub open spec fn paint_rank(s: Side) -> int {
    match s {
        Side::Top => 0,
        Side::Bottom => 1,
        Side::Left => 2,
        Side::Right => 3,
    }
}

/// A box's border commands are, for each side whose own width is positive
/// and for no other side, one fill of that side, tagged with the box's key,
/// in the order top, bottom, left, right.
pub proof fn law_border_commands_are_the_positive_sides(b: BoxNode)
    ensures
        forall|s: Side|
            border_ops(b).contains(PaintOpView::Border { key: b.key, side: s }) <==> side_width(
                b.border,
                s,
            ) == EdgeWidth::Positive,
        forall|i: int|
            0 <= i < border_ops(b).len() ==> (#[trigger] border_ops(b)[i] matches PaintOpView::Border {
                key,
                side,
            } && key == b.key),
        forall|i: int, j: int|
            0 <= i < j < border_ops(b).len() ==> (#[trigger] border_ops(b)[i] matches PaintOpView::Border {
                side: si,
                ..
            } && #[trigger] border_ops(b)[j] matches PaintOpView::Border { side: sj, .. }
                && paint_rank(si) < paint_rank(sj)),
{
    let k = b.key;
    let ops = border_ops(b);
    let t = edge_ops(k, b.border.top, Side::Top);
    let bo = edge_ops(k, b.border.bottom, Side::Bottom);
    let l = edge_ops(k, b.border.left, Side::Left);
    let r = edge_ops(k, b.border.right, Side::Right);
    if !borderless(b) {
        assert(ops == t + bo + l + r);
    }
    assert forall|s: Side|
        ops.contains(PaintOpView::Border { key: k, side: s }) <==> side_width(b.border, s)
            == EdgeWidth::Positive by {
        if side_width(b.border, s) == EdgeWidth::Positive {
            assert(!borderless(b));
            let e = PaintOpView::Border { key: k, side: s };
            let idx: int = match s {
                Side::Top => 0,
                Side::Bottom => t.len() as int,
                Side::Left => (t.len() + bo.len()) as int,
                Side::Right => (t.len() + bo.len() + l.len()) as int,
            };
            assert(ops[idx] == e);
        }
        if ops.contains(PaintOpView::Border { key: k, side: s }) {
            let i = choose|i: int| 0 <= i < ops.len() && ops[i] == PaintOpView::Border { key: k, side: s };
            assert(!borderless(b));
            if i < t.len() {
                assert(ops[i] == t[i]);
            } else if i < t.len() + bo.len() {
                assert(ops[i] == bo[i - t.len()]);
            } else if i < t.len() + bo.len() + l.len() {
                assert(ops[i] == l[i - t.len() - bo.len()]);
            } else {
                assert(ops[i] == r[i - t.len() - bo.len() - l.len()]);
            }
        }
    }
}

/// A box's own commands open with its background exactly when the
/// background is not transparent, and it never gets more than one
/// background command, one text command, and four border commands.
pub proof fn law_background_unless_transparent(doc: Document, b: BoxNode)
    ensures
        !b.background_transparent <==> (own_ops(doc, b).len() > 0 && own_ops(doc, b)[0]
            == PaintOpView::Background { key: b.key }),
        own_ops(doc, b).len() <= 6,
{
    law_one_border_command_per_positive_edge(b);
    if b.background_transparent {
        let o = own_ops(doc, b);
        assert(o =~= border_ops(b) + text_ops(doc, b));
        if o.len() > 0 {
            assert(o[0] != PaintOpView::Background { key: b.key });
        }
    }
}

/// A box gets a text command exactly when its trimmed text is not empty,
/// and that command carries the box's key and that text.
pub proof fn law_text_command_iff_text_not_empty(doc: Document, b: BoxNode)
    ensures
        text_ops(doc, b).len() == 1 <==> box_text(doc, b.dom_node).len() > 0,
        text_ops(doc, b).len() == 0 <==> box_text(doc, b.dom_node).len() == 0,
        box_text(doc, b.dom_node).len() > 0 ==> text_ops(doc, b)[0] == (PaintOpView::Text {
            key: b.key,
            text: box_text(doc, b.dom_node),
        }),
{
}

/// The text a box paints is its trimmed text: never empty, and neither
/// starting nor ending with whitespace.
pub proof fn law_painted_text_is_trimmed(doc: Document, b: BoxNode)
    ensures
        text_ops(doc, b).len() <= 1,
        text_ops(doc, b).len() == 1 ==> ({
            let t = box_text(doc, b.dom_node);
            &&& text_ops(doc, b)[0] == PaintOpView::Text { key: b.key, text: t }
            &&& t.len() > 0
            &&& !unicode_white_space(t[0])
            &&& !unicode_white_space(t.last())
            &&& trim_seq(t) == t
        }),
{
    law_trim_ends_not_whitespace(join_parts(child_parts(doc, b.dom_node)));
    law_trim_idempotent(join_parts(child_parts(doc, b.dom_node)));
}

// ---------------------------------------------------------------------
// The painter
// ---------------------------------------------------------------------

proof fn lemma_ops_view_push(ops: Seq<PaintOp>, op: PaintOp)
    ensures
        ops_view(ops.push(op)) == ops_view(ops).push(op@),
{
    assert(ops_view(ops.push(op)) =~= ops_view(ops).push(op@));
}

proof fn lemma_forest_step(doc: Document, bs: Seq<BoxNode>, i: int)
    requires
        0 <= i < bs.len(),
    ensures
        forest_ops(doc, bs.take(i + 1)) == forest_ops(doc, bs.take(i)) + box_ops(doc, bs[i]),
{
    assert(bs.take(i + 1).drop_last() =~= bs.take(i));
}

/// Build a display list for the tree rooted at `root`. `dom` is consulted
/// for the text-node content under each box.
pub fn build(root: Option<&BoxNode>, dom: &Document) -> (r: DisplayList<PaintOp>)
    ensures
        ops_view(r@) == tree_ops(
            *dom,
            match root {
                Some(b) => Some(*b),
                None => None,
            },
        ),
{
    match root {
        Some(b) => {
            let commands = paint_box(b, dom, Vec::new());
            assert(ops_view(Seq::<PaintOp>::empty()) =~= Seq::<PaintOpView>::empty());
            assert(Seq::<PaintOpView>::empty() + box_ops(*dom, *b) =~= box_ops(*dom, *b));
            DisplayList::new(commands)
        },
        None => {
            let r = DisplayList::new(Vec::new());
            assert(ops_view(r@) =~= Seq::<PaintOpView>::empty());
            r
        },
    }
}

/// Paint `b` and its subtree after the commands already in `acc`.
fn paint_box(b: &BoxNode, dom: &Document, acc: Vec<PaintOp>) -> (r: Vec<PaintOp>)
    ensures
        ops_view(r@) == ops_view(acc@) + box_ops(*dom, *b),
    decreases b,
{
    let with_bg = emit_background(b, acc);
    let with_border = emit_borders(b, with_bg);
    let with_text = emit_text(b, dom, with_border);
    let ghost base = ops_view(acc@) + own_ops(*dom, *b);
    assert(base =~= ops_view(acc@) + background_ops(*b) + border_ops(*b) + text_ops(*dom, *b));
    let mut out = with_text;
    let n = b.children.len();
    let mut i: usize = 0;
    assert(forest_ops(*dom, b.children@.take(0)) =~= Seq::<PaintOpView>::empty()) by {
        assert(b.children@.take(0) =~= Seq::<BoxNode>::empty());
    }
    assert(ops_view(out@) =~= base + forest_ops(*dom, b.children@.take(0)));
    while i < n
        invariant
            n == b.children@.len(),
            i <= n,
            ops_view(out@) == base + forest_ops(*dom, b.children@.take(i as int)),
        decreases n - i,
    {
        let prev = out;
        out = paint_box(&b.children[i], dom, prev);
        proof {
            lemma_forest_step(*dom, b.children@, i as int);
            assert(ops_view(out@) =~= base + forest_ops(*dom, b.children@.take(i + 1)));
        }
        i = i + 1;
    }
    assert(b.children@.take(n as int) =~= b.children@);
    assert(ops_view(out@) =~= ops_view(acc@) + box_ops(*dom, *b));
    out
}

/// Fill the padding box with the background colour, unless it is
/// transparent.
fn emit_background(b: &BoxNode, acc: Vec<PaintOp>) -> (r: Vec<PaintOp>)
    ensures
        ops_view(r@) == ops_view(acc@) + background_ops(*b),
{
    if b.background_transparent {
        assert(ops_view(acc@) + background_ops(*b) =~= ops_view(acc@));
        acc
    } else {
        let r = append(acc, PaintOp::Background { key: b.key });
        assert(ops_view(r@) =~= ops_view(acc@) + background_ops(*b));
        r
    }
}

/// Append the command for one border edge when its width is positive.
fn emit_edge(key: usize, w: EdgeWidth, side: Side, acc: Vec<PaintOp>) -> (r: Vec<PaintOp>)
    ensures
        ops_view(r@) == ops_view(acc@) + edge_ops(key, w, side),
{
    match w {
        EdgeWidth::Positive => {
            let r = append(acc, PaintOp::Border { key, side });
            assert(ops_view(r@) =~= ops_view(acc@) + edge_ops(key, w, side));
            r
        },
        _ => {
            assert(ops_view(acc@) + edge_ops(key, w, side) =~= ops_view(acc@));
            acc
        },
    }
}

/// Fill the border edges: nothing when all four widths are zero, else each
/// positive edge, top, bottom, left, right.
fn emit_borders(b: &BoxNode, acc: Vec<PaintOp>) -> (r: Vec<PaintOp>)
    ensures
        ops_view(r@) == ops_view(acc@) + border_ops(*b),
{
    let w = b.border;
    if w.top == EdgeWidth::Zero && w.right == EdgeWidth::Zero && w.bottom == EdgeWidth::Zero
        && w.left == EdgeWidth::Zero {
        assert(ops_view(acc@) + border_ops(*b) =~= ops_view(acc@));
        acc
    } else {
        let ghost v0 = ops_view(acc@);
        let with_top = emit_edge(b.key, w.top, Side::Top, acc);
        let with_bottom = emit_edge(b.key, w.bottom, Side::Bottom, with_top);
        let with_left = emit_edge(b.key, w.left, Side::Left, with_bottom);
        let r = emit_edge(b.key, w.right, Side::Right, with_left);
        assert(ops_view(r@) =~= v0 + border_ops(*b));
        r
    }
}

/// For each child of the DOM node `id`, in order, its content when it is a
/// text node.
fn child_text_parts(dom: &Document, id: NodeId) -> (r: Vec<Option<String>>)
    ensures
        parts_view(r@) == child_parts(*dom, id),
{
    let kids = match node_children(dom, id) {
        Some(v) => v,
        None => Vec::new(),
    };
    assert(kids@ == child_ids(*dom, id));
    let mut parts: Vec<Option<String>> = Vec::new();
    let n = kids.len();
    let mut i: usize = 0;
    while i < n
        invariant
            n == kids@.len(),
            i <= n,
            kids@ == child_ids(*dom, id),
            parts@.len() == i,
            forall|j: int| 0 <= j < i ==> part_view(#[trigger] parts@[j]) == child_parts(*dom, id)[j],
        decreases n - i,
    {
        let part = node_text(dom, kids[i]);
        parts.push(part);
        i = i + 1;
    }
    assert(parts_view(parts@) =~= child_parts(*dom, id));
    parts
}

/// The trimmed text of the text children of the DOM node `id`.
fn text_of(dom: &Document, id: NodeId) -> (r: String)
    ensures
        r@ == box_text(*dom, id),
{
    let parts = child_text_parts(dom, id);
    painted_text(&parts)
}

/// Render the box's trimmed text when it is not empty.
fn emit_text(b: &BoxNode, dom: &Document, acc: Vec<PaintOp>) -> (r: Vec<PaintOp>)
    ensures
        ops_view(r@) == ops_view(acc@) + text_ops(*dom, *b),
{
    let trimmed = text_of(dom, b.dom_node);
    if trimmed.as_str().unicode_len() == 0 {
        assert(ops_view(acc@) + text_ops(*dom, *b) =~= ops_view(acc@));
        acc
    } else {
        let r = append(acc, PaintOp::Text { key: b.key, text: trimmed });
        assert(ops_view(r@) =~= ops_view(acc@) + text_ops(*dom, *b));
        r
    }
}

/// `acc` with `cmd` added at the end.
fn append(acc: Vec<PaintOp>, cmd: PaintOp) -> (r: Vec<PaintOp>)
    ensures
        r@ == acc@.push(cmd),
        ops_view(r@) == ops_view(acc@).push(cmd@),
{
    let mut out = acc;
    out.push(cmd);
    proof {
        lemma_ops_view_push(acc@, cmd);
    }
    out
}

} // verus!
