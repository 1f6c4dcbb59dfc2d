//! The painter's rules, on box trees built by hand over real documents.

use dom_cat::{Document, NodeId};
use paint_cat::{build, BorderWidths, BoxNode, EdgeWidth, PaintOp, Side};

fn doc(html: &str) -> Document {
    Document::from_html_doc(&html_cat::parse(html).expect("html parses"))
}

fn node(d: &Document, selector: &str) -> NodeId {
    dom_cat::query_selector(d, selector).expect("selector parses").expect("node exists")
}

fn borders(top: EdgeWidth, right: EdgeWidth, bottom: EdgeWidth, left: EdgeWidth) -> BorderWidths {
    BorderWidths { top, right, bottom, left }
}

fn no_border() -> BorderWidths {
    borders(EdgeWidth::Zero, EdgeWidth::Zero, EdgeWidth::Zero, EdgeWidth::Zero)
}

fn leaf(key: usize, dom_node: NodeId, background_transparent: bool, border: BorderWidths) -> BoxNode {
    BoxNode { key, dom_node, background_transparent, border, children: Vec::new() }
}

fn paint(root: &BoxNode, d: &Document) -> Vec<PaintOp> {
    build(Some(root), d).commands().to_vec()
}

#[test]
fn four_positive_edges_give_top_bottom_left_right() {
    let d = doc("<html><body><div></div></body></html>");
    let p = EdgeWidth::Positive;
    let b = leaf(7, node(&d, "div"), true, borders(p, p, p, p));
    assert_eq!(
        paint(&b, &d),
        vec![
            PaintOp::Border { key: 7, side: Side::Top },
            PaintOp::Border { key: 7, side: Side::Bottom },
            PaintOp::Border { key: 7, side: Side::Left },
            PaintOp::Border { key: 7, side: Side::Right },
        ]
    );
}

#[test]
fn zero_border_gives_no_edges() {
    let d = doc("<html><body><div></div></body></html>");
    let b = leaf(0, node(&d, "div"), true, no_border());
    assert!(paint(&b, &d).is_empty());
}

#[test]
fn negative_edges_give_no_edges() {
    let d = doc("<html><body><div></div></body></html>");
    let o = EdgeWidth::Other;
    let z = EdgeWidth::Zero;
    assert!(paint(&leaf(0, node(&d, "div"), true, borders(o, o, o, o)), &d).is_empty());
    assert!(paint(&leaf(0, node(&d, "div"), true, borders(z, o, z, z)), &d).is_empty());
}

#[test]
fn only_positive_edges_are_filled() {
    let d = doc("<html><body><div></div></body></html>");
    let (z, p, o) = (EdgeWidth::Zero, EdgeWidth::Positive, EdgeWidth::Other);
    let b = leaf(3, node(&d, "div"), true, borders(o, p, z, p));
    assert_eq!(
        paint(&b, &d),
        vec![PaintOp::Border { key: 3, side: Side::Left }, PaintOp::Border { key: 3, side: Side::Right }]
    );
}

#[test]
fn background_comes_first_unless_transparent() {
    let d = doc("<html><body><p>hi</p></body></html>");
    let p = node(&d, "p");
    let painted = paint(&leaf(1, p, false, borders(EdgeWidth::Positive, EdgeWidth::Zero, EdgeWidth::Zero, EdgeWidth::Zero)), &d);
    assert_eq!(
        painted,
        vec![
            PaintOp::Background { key: 1 },
            PaintOp::Border { key: 1, side: Side::Top },
            PaintOp::Text { key: 1, text: "hi".to_string() },
        ]
    );
    let transparent = paint(&leaf(1, p, true, no_border()), &d);
    assert_eq!(transparent, vec![PaintOp::Text { key: 1, text: "hi".to_string() }]);
}

#[test]
fn text_is_trimmed() {
    let d = doc("<html><body><p>  hi there \n</p></body></html>");
    let painted = paint(&leaf(0, node(&d, "p"), true, no_border()), &d);
    assert_eq!(painted, vec![PaintOp::Text { key: 0, text: "hi there".to_string() }]);
}

#[test]
fn whitespace_only_text_is_not_painted() {
    let d = doc("<html><body><p>   </p></body></html>");
    assert!(paint(&leaf(0, node(&d, "p"), true, no_border()), &d).is_empty());
}

#[test]
fn only_direct_text_children_are_joined() {
    let d = doc("<html><body><p>a<b>b</b>c</p></body></html>");
    let painted = paint(&leaf(0, node(&d, "p"), true, no_border()), &d);
    assert_eq!(painted, vec![PaintOp::Text { key: 0, text: "ac".to_string() }]);
}

#[test]
fn element_without_text_paints_no_text() {
    let d = doc("<html><body><div><p>x</p></div></body></html>");
    assert!(paint(&leaf(0, node(&d, "div"), true, no_border()), &d).is_empty());
}

#[test]
fn children_paint_after_parent_in_document_order() {
    let d = doc("<html><body><div><p>one</p><span>two</span></div></body></html>");
    let first = BoxNode {
        key: 1,
        dom_node: node(&d, "p"),
        background_transparent: false,
        border: no_border(),
        children: Vec::new(),
    };
    let second = leaf(2, node(&d, "span"), false, no_border());
    let root = BoxNode {
        key: 0,
        dom_node: node(&d, "div"),
        background_transparent: false,
        border: no_border(),
        children: vec![first, second],
    };
    assert_eq!(
        paint(&root, &d),
        vec![
            PaintOp::Background { key: 0 },
            PaintOp::Background { key: 1 },
            PaintOp::Text { key: 1, text: "one".to_string() },
            PaintOp::Background { key: 2 },
            PaintOp::Text { key: 2, text: "two".to_string() },
        ]
    );
}

#[test]
fn nested_subtree_is_painted_whole_before_next_sibling() {
    let d = doc("<html><body><div></div></body></html>");
    let div = node(&d, "div");
    let grandchild = leaf(2, div, false, no_border());
    let child = BoxNode { key: 1, dom_node: div, background_transparent: false, border: no_border(), children: vec![grandchild] };
    let sibling = leaf(3, div, false, no_border());
    let root = BoxNode { key: 0, dom_node: div, background_transparent: false, border: no_border(), children: vec![child, sibling] };
    let keys: Vec<usize> = paint(&root, &d)
        .iter()
        .map(|c| match c {
            PaintOp::Background { key } | PaintOp::Border { key, .. } | PaintOp::Text { key, .. } => *key,
        })
        .collect();
    assert_eq!(keys, vec![0, 1, 2, 3]);
}

#[test]
fn no_root_paints_nothing() {
    let d = doc("<html><body><p>hi</p></body></html>");
    assert!(build(None, &d).is_empty());
}
