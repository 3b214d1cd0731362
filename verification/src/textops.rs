//! Trusted boundary to the text primitives the renderer leans on:
//! the greedy word-wrap of the `textwrap` crate, the display-width
//! measure of the `unicode-width` crate, and two pieces of `std` that
//! vstd leaves unspecified.

use vstd::prelude::*;
use crate::text::clean;

verus! {

/// Relies on std's String::push: appends the given character to the
/// end of the string.
pub assume_specification[ String::push ](s: &mut String, ch: char)
    ensures
        final (s)@ == old(s)@.push(ch),
;

/// The lines that the textwrap crate's whitespace-collapsing word wrap
/// produces for `text` at column budget `width`.
pub uninterp spec fn wrap_of(text: Seq<char>, width: int) -> Seq<Seq<char>>;

/// Relies on textwrap::wrap: the wrapped lines are a pure function of
/// the text and the width, and every output line is assembled from
/// pieces of the input split at whitespace (plus plain spaces), so a
/// line-break-free and form-feed-free input yields such lines too.
#[verifier::external_body]
pub(crate) fn wrap_text(text: &str, width: usize) -> (r: Vec<String>)
    ensures
        r.deep_view() == wrap_of(text@, width as int),
        clean(text@) ==> forall|i: int|
            0 <= i < r.deep_view().len() ==> clean(#[trigger] r.deep_view()[i]),
{
    textwrap::wrap(text, width).into_iter().map(|s| s.into_owned()).collect()
}

/// The number of terminal columns `s` occupies in a monospaced cell
/// grid, as the `unicode-width` crate measures it.
pub uninterp spec fn display_width(s: Seq<char>) -> nat;

/// Relies on unicode_width::UnicodeWidthStr::width: a table-driven
/// function of the characters alone.
#[verifier::external_body]
pub(crate) fn text_width(s: &str) -> (r: usize)
    ensures
        r as nat == display_width(s@),
{
    unicode_width::UnicodeWidthStr::width(s)
}

/// The Unicode uppercase rendering of `s`.
pub uninterp spec fn upper_of(s: Seq<char>) -> Seq<char>;

/// Relies on std's str::to_uppercase: a function of the characters
/// alone, whose case mappings produce letters only, so control
/// characters never appear unless already present in the input.
#[verifier::external_body]
pub(crate) fn to_uppercase_text(s: &str) -> (r: String)
    ensures
        r@ == upper_of(s@),
        clean(s@) ==> clean(r@),
{
    s.to_uppercase()
}

} // verus!
