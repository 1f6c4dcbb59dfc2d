//! The error type.

use paint_cat::Error;

#[test]
fn from_dom_error_wraps_it() {
    let e = dom_cat::Error::NodeNotFound { id: 3 };
    assert_eq!(Error::from(e.clone()), Error::Dom(e));
}

#[test]
fn from_layout_error_wraps_it() {
    let inner = layout_cat::Error::Dom(dom_cat::Error::NotAnElement { id: 1 });
    assert_eq!(Error::from(inner.clone()), Error::Layout(inner));
}

#[test]
fn message_of_dom_error() {
    let e = Error::from(dom_cat::Error::NodeNotFound { id: 3 });
    assert_eq!(e.message(), "dom error: node id 3 not found");
}

#[test]
fn message_of_layout_error() {
    let e = Error::from(layout_cat::Error::Dom(dom_cat::Error::NotAnElement { id: 1 }));
    assert_eq!(e.message(), "layout error: dom error: node id 1 is not an element");
}
