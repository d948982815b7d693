//! One row of content: an immutable sequence of characters that can measure
//! itself, project itself into border glyphs, and wrap itself in side glyphs.

use vstd::prelude::*;
use crate::textops::remap_spec;
use crate::textops::wrap_spec;
use crate::width::is_fullwidth;

verus! {

/// One row of content; its view is the sequence of its characters.
#[derive(Debug, PartialEq, Eq)]
pub struct Line {
    text: String,
}

impl View for Line {
    type V = Seq<char>;

    closed spec fn view(&self) -> Seq<char> {
        self.text@
    }
}

impl Clone for Line {
    /// The copy holds the same characters.
    fn clone(&self) -> (r: Self)
        ensures
            r@ == self@,
    {
        Line { text: self.text.clone() }
    }
}

impl Default for Line {
    /// The default line is empty.
    fn default() -> (r: Self)
        ensures
            r@ == Seq::<char>::empty(),
    {
        Line { text: String::new() }
    }
}

/// Relies on String::push: appends the given character to the end of the
/// string.
#[verifier::external_body]
pub(crate) fn push_char(s: &mut String, c: char)
    ensures
        final(s)@ == old(s)@.push(c),
{
    s.push(c);
}

impl Line {
    /// Wraps `text` as a line.
    pub fn new(text: String) -> (r: Self)
        ensures
            r@ == text@,
    {
        Line { text }
    }

    /// The number of characters (Unicode scalar values) in the line — not
    /// bytes, and not display columns.
    pub fn count_chars(&self) -> (n: usize)
        ensures
            n == self@.len(),
    {
        self.text.as_str().unicode_len()
    }

    /// The line's border projection: a line of the same character count
    /// whose character at each position is `full` where this line's
    /// character is full-width and `half` where it is narrow.
    pub fn remap_by_width(&self, half: char, full: char) -> (r: Self)
        ensures
            r@ == remap_spec(self@, half, full),
    {
        let s = self.text.as_str();
        let n = s.unicode_len();
        let mut out = String::new();
        assert(out@ =~= remap_spec(self@.subrange(0, 0), half, full));
        let mut i: usize = 0;
        while i < n
            invariant
                n == self@.len(),
                s@ == self@,
                i <= n,
                out@ == remap_spec(self@.subrange(0, i as int), half, full),
            decreases n - i,
        {
            let c = s.get_char(i);
            let g = if is_fullwidth(c) {
                full
            } else {
                half
            };
            push_char(&mut out, g);
            assert(out@ =~= remap_spec(self@.subrange(0, i + 1 as int), half, full));
            i = i + 1;
        }
        assert(self@.subrange(0, n as int) =~= self@);
        Line { text: out }
    }

    /// The line wrapped in `symbol` with one space of padding on each side.
    pub fn wrap_with(&self, symbol: char) -> (r: Self)
        ensures
            r@ == wrap_spec(self@, symbol),
    {
        let mut out = String::new();
        push_char(&mut out, symbol);
        push_char(&mut out, ' ');
        out.append(self.text.as_str());
        push_char(&mut out, ' ');
        push_char(&mut out, symbol);
        assert(out@ =~= wrap_spec(self@, symbol));
        Line { text: out }
    }

    /// The line's characters as a string.
    pub fn to_string(&self) -> (r: String)
        ensures
            r@ == self@,
    {
        self.text.clone()
    }
}

} // verus!
