//! Text helpers over std's string functions.
use vstd::prelude::*;
use crate::attribute::{Attribute, AttributeView};

verus! {

/// Whether the text `p` is a prefix of the text `s`.
pub open spec fn has_prefix(s: Seq<char>, p: Seq<char>) -> bool {
    p.len() <= s.len() && s.subrange(0, p.len() as int) == p
}

/// Calls `str::starts_with`, which is true exactly when `prefix` is a prefix of `s`.
#[verifier::external_body]
pub(crate) fn starts_with(s: &str, prefix: &str) -> (r: bool)
    ensures
        r == has_prefix(s@, prefix@),
{
    s.starts_with(prefix)
}

/// The text that `format!("{:?}", a)` gives for an attribute `a` whose view is
/// `v`: the derived debug rendering, which depends on the attribute's contents alone.
pub uninterp spec fn attribute_debug_text(v: AttributeView) -> Seq<char>;

/// Calls `format!` with `{:?}`: the debug rendering of an attribute, named
/// `attribute_debug_text` of the attribute's view.
#[verifier::external_body]
pub(crate) fn debug_text(a: &Attribute) -> (s: String)
    ensures
        s@ == attribute_debug_text(a@),
{
    format!("{:?}", a)
}

/// The text of an optional string, or the empty text.
pub open spec fn text_or_empty(o: Option<String>) -> Seq<char> {
    match o {
        Some(s) => s@,
        None => Seq::empty(),
    }
}

/// The text of an optional string.
pub open spec fn opt_text(o: Option<String>) -> Option<Seq<char>> {
    match o {
        Some(s) => Some(s@),
        None => None,
    }
}

/// A copy of the optional string, or an empty string.
pub fn copy_or_empty(o: &Option<String>) -> (r: String)
    ensures
        r@ == text_or_empty(*o),
{
    match o {
        Some(s) => s.clone(),
        None => String::new(),
    }
}

/// Whether two optional strings hold the same text.
pub fn same_opt_text(a: &Option<String>, b: &Option<String>) -> (r: bool)
    ensures
        r == (opt_text(*a) == opt_text(*b)),
{
    match (a, b) {
        (Some(x), Some(y)) => *x == *y,
        (None, None) => true,
        _ => false,
    }
}

} // verus!
