//! Paint error type.

use vstd::prelude::*;
use vstd::string::*;

use dom_cat::Error as DomError;
use layout_cat::Error as LayoutError;

verus! {

/// `layout_cat::Error`, held opaquely.
#[verifier::external_type_specification]
#[verifier::external_body]
pub struct ExLayoutError(LayoutError);

/// `dom_cat::Error`, held opaquely.
#[verifier::external_type_specification]
#[verifier::external_body]
pub struct ExDomError(DomError);

/// `Clone` of `layout_cat::Error` (derived there). Nothing is stated of the
/// copy; the derived `Clone` of `Error` goes through it.
pub assume_specification[ <LayoutError as Clone>::clone ](e: &LayoutError) -> (r: LayoutError);

/// `Clone` of `dom_cat::Error` (derived there). Nothing is stated of the
/// copy; the derived `Clone` of `Error` goes through it.
pub assume_specification[ <DomError as Clone>::clone ](e: &DomError) -> (r: DomError);

/// All errors `paint-cat` can produce. There are no native error
/// conditions yet; the variants carry upstream layout and DOM failures for
/// callers that surface them here.
#[derive(Debug, Clone, PartialEq, Eq)]
pub enum Error {
    /// A layout-stage error.
    Layout(LayoutError),
    /// A DOM error.
    Dom(DomError),
}

impl From<LayoutError> for Error {
    fn from(value: LayoutError) -> (r: Self) {
        Error::Layout(value)
    }
}

impl vstd::std_specs::convert::FromSpecImpl<LayoutError> for Error {
    open spec fn obeys_from_spec() -> bool {
        true
    }

    open spec fn from_spec(value: LayoutError) -> Self {
        Error::Layout(value)
    }
}

impl From<DomError> for Error {
    fn from(value: DomError) -> (r: Self) {
        Error::Dom(value)
    }
}

impl vstd::std_specs::convert::FromSpecImpl<DomError> for Error {
    open spec fn obeys_from_spec() -> bool {
        true
    }

    open spec fn from_spec(value: DomError) -> Self {
        Error::Dom(value)
    }
}

/// The text that `Display` of `layout_cat::Error` writes for `e`.
pub uninterp spec fn layout_error_message(e: LayoutError) -> Seq<char>;

/// The text that `Display` of `dom_cat::Error` writes for `e`.
pub uninterp spec fn dom_error_message(e: DomError) -> Seq<char>;

/// Calls `Display` of `layout_cat::Error` (through `to_string`). Trusted:
/// the text is `layout_error_message(*e)`, a function of the error value
/// alone.
#[verifier::external_body]
fn layout_error_text(e: &LayoutError) -> (r: String)
    ensures
        r@ == layout_error_message(*e),
{
    e.to_string()
}

/// Calls `Display` of `dom_cat::Error` (through `to_string`). Trusted: the
/// text is `dom_error_message(*e)`, a function of the error value alone.
#[verifier::external_body]
fn dom_error_text(e: &DomError) -> (r: String)
    ensures
        r@ == dom_error_message(*e),
{
    e.to_string()
}

impl Error {
    /// The error's message: `layout error: ` or `dom error: `, then the
    /// upstream error's own message.
    pub fn message(&self) -> (r: String)
        ensures
            self matches Error::Layout(e) ==> r@ == "layout error: "@ + layout_error_message(*e),
            self matches Error::Dom(e) ==> r@ == "dom error: "@ + dom_error_message(*e),
    {
        proof {
            reveal_strlit("layout error: ");
            reveal_strlit("dom error: ");
        }
        match self {
            Error::Layout(e) => {
                let mut r = String::from_str("layout error: ");
                let t = layout_error_text(e);
                r.append(t.as_str());
                r
            },
            Error::Dom(e) => {
                let mut r = String::from_str("dom error: ");
                let t = dom_error_text(e);
                r.append(t.as_str());
                r
            },
        }
    }
}

} // verus!
