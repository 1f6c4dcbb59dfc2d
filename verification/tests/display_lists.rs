//! Display-list construction on real layouts: HTML and CSS are parsed,
//! laid out, and the layout boxes read into the painter's box tree.

use dom_cat::Document;
use layout_cat::{LayoutBox, LayoutTree};
use paint_cat::{build, BorderWidths, BoxNode, DisplayList, EdgeWidth, PaintOp};

fn edge(width: f64) -> EdgeWidth {
    if width == 0.0 {
        EdgeWidth::Zero
    } else if width > 0.0 {
        EdgeWidth::Positive
    } else {
        EdgeWidth::Other
    }
}

/// Read `b` and its subtree into box nodes, keyed by position in `table`.
fn model(b: &LayoutBox, table: &mut Vec<LayoutBox>) -> BoxNode {
    let key = table.len();
    table.push(b.clone());
    let border = b.border();
    let children = b.children().iter().map(|c| model(c, table)).collect();
    BoxNode {
        key,
        dom_node: b.dom_node(),
        background_transparent: b.style().background_color().alpha() == 0.0,
        border: BorderWidths {
            top: edge(border.top()),
            right: edge(border.right()),
            bottom: edge(border.bottom()),
            left: edge(border.left()),
        },
        children,
    }
}

fn run(html: &str, css: &str) -> (DisplayList<PaintOp>, Vec<LayoutBox>) {
    let html_doc = html_cat::parse(html).expect("html parses");
    let dom = Document::from_html_doc(&html_doc);
    let sheet = css_cat::parse(css).expect("css parses");
    let tree: LayoutTree = layout_cat::layout(&dom, &sheet, layout_cat::Viewport::new(800, 600));
    let mut table = Vec::new();
    let root = tree.root_box().map(|b| model(b, &mut table));
    (build(root.as_ref(), &dom), table)
}

fn is_background(op: &PaintOp) -> bool {
    matches!(op, PaintOp::Background { .. })
}

fn is_fill_rect(op: &PaintOp) -> bool {
    matches!(op, PaintOp::Background { .. } | PaintOp::Border { .. })
}

#[test]
fn no_commands_for_unstyled_element() {
    let (list, _) = run("<html><body><div></div></body></html>", "");
    assert!(list.is_empty(), "expected empty list");
}

#[test]
fn emits_background_fill() {
    let (list, _) = run(
        "<html><body><div></div></body></html>",
        "div { background-color: red; height: 100px; }",
    );
    assert!(
        list.commands().iter().any(is_fill_rect),
        "expected FillRect for background"
    );
}

#[test]
fn emits_text_for_paragraph() {
    let (list, _) = run("<html><body><p>hello</p></body></html>", "");
    assert!(
        list.commands()
            .iter()
            .any(|c| matches!(c, PaintOp::Text { text, .. } if text == "hello")),
        "expected FillText for paragraph"
    );
}

#[test]
fn skips_transparent_background() {
    let (list, _) = run(
        "<html><body><div></div></body></html>",
        "div { background-color: transparent; }",
    );
    assert!(
        list.commands().iter().all(|c| !is_fill_rect(c)),
        "transparent should not emit FillRect"
    );
}

#[test]
fn emits_border_fills_when_widths_set() {
    let (list, _) = run(
        "<html><body><div></div></body></html>",
        "div { border-width: 4px; height: 50px; }",
    );
    let fill_count = list.commands().iter().filter(|c| is_fill_rect(c)).count();
    assert!(fill_count >= 4, "expected >=4 FillRects for 4 borders");
}

#[test]
fn parent_before_child() {
    let (list, table) = run(
        "<html><body><div><p>x</p></div></body></html>",
        "div { background-color: blue; height: 50px; } p { background-color: red; }",
    );
    let positions: Vec<u8> = list
        .commands()
        .iter()
        .filter_map(|c| match c {
            PaintOp::Background { key } => {
                let color = table[*key].style().background_color();
                if color.blue() > 0.5 && color.red() < 0.5 {
                    Some(0_u8)
                } else if color.red() > 0.5 && color.blue() < 0.5 {
                    Some(1_u8)
                } else {
                    None
                }
            }
            PaintOp::Border { .. } | PaintOp::Text { .. } => None,
        })
        .collect();
    assert!(
        positions.first() == Some(&0) && positions.get(1) == Some(&1),
        "parent-before-child order broken"
    );
}

#[test]
fn background_text_and_children_in_document_order() {
    let (list, table) = run(
        "<html><body><div> top <p>inner</p></div></body></html>",
        "div { background-color: blue; } p { background-color: red; }",
    );
    let tags: Vec<String> = list
        .commands()
        .iter()
        .map(|c| match c {
            PaintOp::Background { key } => format!("bg:{}", table[*key].children().len()),
            PaintOp::Border { .. } => "border".to_string(),
            PaintOp::Text { text, .. } => format!("text:{text}"),
        })
        .collect();
    let div_bg = tags.iter().position(|t| t == "bg:1").expect("div background");
    let div_text = tags.iter().position(|t| t == "text:top").expect("div text");
    let p_bg = tags.iter().position(|t| t == "bg:0").expect("p background");
    let p_text = tags.iter().position(|t| t == "text:inner").expect("p text");
    assert!(div_bg < div_text && div_text < p_bg && p_bg < p_text);
}

#[test]
fn readme_example_paints_something() {
    let (list, _) = run(
        "<html><body><p>hi</p></body></html>",
        "p { background-color: red; padding: 8px; }",
    );
    assert!(!list.commands().is_empty());
    assert!(list.commands().iter().any(is_background));
}

#[test]
fn empty_tree_paints_nothing() {
    let html_doc = html_cat::parse("<html><body></body></html>").expect("html parses");
    let dom = Document::from_html_doc(&html_doc);
    let list = build(None, &dom);
    assert_eq!(list.len(), 0);
    assert!(list.is_empty());
}
