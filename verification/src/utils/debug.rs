//! `Debug` texts that messages show, written by std's `format!`.
//!
//! The text `format!` writes for a string or a list of strings, and for a list of
//! expression parts, depends on the value alone; it is named here and not restated.

use vstd::prelude::*;

use crate::expression::specs::{irs_view, strings_view, ExpressionIR, SpecIR};

verus! {

/// The `Debug` text of a string (`format!("{:?}", s)`): quoted, with escapes.
pub uninterp spec fn debug_text(s: Seq<char>) -> Seq<char>;

/// The `Debug` text of a list of strings (`format!("{:?}", v)`).
pub uninterp spec fn debug_list_text(v: Seq<Seq<char>>) -> Seq<char>;

/// The pretty `Debug` text of a list of expression parts (`format!("{:#?}", v)`).
pub uninterp spec fn pretty_parts_text(v: Seq<SpecIR>) -> Seq<char>;

/// `format!("{:?}", s)` for a string: claimed to depend on the string alone, and named
/// [`debug_text`].
#[verifier::external_body]
pub(crate) fn debug_str(s: &str) -> (r: String)
    ensures
        r@ == debug_text(s@),
{
    format!("{:?}", s)
}

/// `format!("{:?}", v)` for a list of strings: claimed to depend on the strings alone, and
/// named [`debug_list_text`].
#[verifier::external_body]
pub(crate) fn debug_strings(v: &Vec<String>) -> (r: String)
    ensures
        r@ == debug_list_text(strings_view(v@)),
{
    format!("{:?}", v)
}

/// `format!("{:#?}", v)` for a list of expression parts, through their derived `Debug`:
/// claimed to depend on the parts (their view) alone, and named [`pretty_parts_text`].
#[verifier::external_body]
pub(crate) fn pretty_debug_parts(v: &Vec<ExpressionIR>) -> (r: String)
    ensures
        r@ == pretty_parts_text(irs_view(v@)),
{
    format!("{:#?}", v)
}

} // verus!
