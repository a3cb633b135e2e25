//! What the syntax of Rust says of a piece of source text.

use vstd::prelude::*;

verus! {

/// The text that `source` stands for, where `source` is one string literal.
pub uninterp spec fn literal_value(source: Seq<char>) -> Option<Seq<char>>;

/// Whether `source` is one expression.
pub uninterp spec fn expression_syntax(source: Seq<char>) -> bool;

/// Whether `source` is what may stand inside `#[...]`: a path, a path with
/// arguments in brackets, or a path with `=` and a value.
pub uninterp spec fn attribute_syntax(source: Seq<char>) -> bool;

/// Calls `syn::parse_str` for a `syn::LitStr`, and `value` on what it
/// gives: the text of the literal, escapes resolved, where `source` is
/// one string literal and nothing else; `None` otherwise.
#[verifier::external_body]
pub(crate) fn string_value(source: &str) -> (value: Option<String>)
    ensures
        match value {
            Some(text) => literal_value(source@) == Some(text@),
            None => literal_value(source@) is None,
        },
{
    match syn::parse_str::<syn::LitStr>(source) {
        Ok(literal) => Some(literal.value()),
        Err(_) => None,
    }
}

/// Calls `syn::parse_str` for a `syn::Expr`: whether all of `source` is
/// one expression.
#[verifier::external_body]
pub(crate) fn is_expression(source: &str) -> (accepted: bool)
    ensures
        accepted == expression_syntax(source@),
{
    syn::parse_str::<syn::Expr>(source).is_ok()
}

/// Calls `syn::parse_str` for a `syn::Meta`: whether all of `source` is
/// the content of one attribute.
#[verifier::external_body]
pub(crate) fn is_attribute(source: &str) -> (accepted: bool)
    ensures
        accepted == attribute_syntax(source@),
{
    syn::parse_str::<syn::Meta>(source).is_ok()
}

} // verus!
