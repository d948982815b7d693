//! Classification of a character as narrow (one display column) or wide
//! (two columns) under East-Asian-width rules.

use vstd::prelude::*;

verus! {

/// Display width of a character in a CJK context: the number of terminal
/// columns it occupies, or none for a control character. The width is a pure
/// function of the code point, fixed by the Unicode East-Asian-width table.
pub uninterp spec fn cjk_width(c: char) -> Option<usize>;

/// Relies on unicode_width::UnicodeWidthChar::width_cjk: a lookup in the
/// East-Asian-width table, depending on the code point alone; it returns the
/// character's width in columns, or None for a control character.
#[verifier::external_body]
fn width_cjk_of(c: char) -> (r: Option<usize>)
    ensures
        r == cjk_width(c),
{
    unicode_width::UnicodeWidthChar::width_cjk(c)
}

/// A character is full-width exactly when the table gives it two columns;
/// control and unclassified characters count as narrow.
pub open spec fn spec_is_fullwidth(c: char) -> bool {
    cjk_width(c) == Some(2usize)
}

/// Decides whether `c` occupies two display columns.
pub fn is_fullwidth(c: char) -> (r: bool)
    ensures
        r == spec_is_fullwidth(c),
{
    match width_cjk_of(c) {
        Some(w) => w == 2,
        None => false,
    }
}

} // verus!
