//! Composition of the frame: synthesis of the horizontal border from the
//! longest row and the full multi-row rendering.

use vstd::prelude::*;
use crate::content::Content;
use crate::line::Line;
use crate::textops::body_spec;
use crate::textops::longest_of;
use crate::textops::remap_spec;
use crate::textops::split_lines;
use crate::textops::wrap_spec;

verus! {

/// The corner glyph of every border row.
pub const FRAME_CORNER: char = '+';

/// The horizontal border pattern of the frame around `ls`: the longest row
/// projected into border glyphs, a narrow dash for each narrow character and
/// a full-width bar for each full-width character.
pub open spec fn border_spec(ls: Seq<Seq<char>>) -> Seq<char> {
    remap_spec(longest_of(ls), '-', 'ー')
}

/// A border row: the horizontal border between corner glyphs, with one
/// space of padding on each side.
pub open spec fn border_row_spec(ls: Seq<Seq<char>>) -> Seq<char> {
    wrap_spec(border_spec(ls), FRAME_CORNER)
}

/// The full frame around `ls`: a border row, the wrapped rows, and the same
/// border row again, joined with line breaks.
pub open spec fn rect_spec(ls: Seq<Seq<char>>) -> Seq<char> {
    border_row_spec(ls) + seq!['\n'] + body_spec(ls) + seq!['\n'] + border_row_spec(ls)
}

/// A transient composition of content with border synthesis and side
/// wrapping; its view is the content's rows.
pub struct Rectangle {
    content: Content,
}

impl View for Rectangle {
    type V = Seq<Seq<char>>;

    closed spec fn view(&self) -> Seq<Seq<char>> {
        self.content@
    }
}

impl Rectangle {
    /// Wraps the rows of `text`, split on line breaks, as a rectangle.
    pub fn new_from_text(text: &str) -> (r: Self)
        ensures
            r@ == split_lines(text@),
    {
        Rectangle { content: Content::new_from_text(text) }
    }

    /// The horizontal border: the longest row's border projection. Its
    /// character count equals the longest row's, and the glyph at each
    /// position matches the width class of that row's character there.
    pub fn horizontal_border(&self) -> (r: String)
        ensures
            r@ == border_spec(self@),
            r@.len() == longest_of(self@).len(),
    {
        self.content.longest_line().remap_by_width('-', 'ー').to_string()
    }

    /// A border row of the frame.
    pub fn outputs_border(&self) -> (r: String)
        ensures
            r@ == border_row_spec(self@),
    {
        Line::new(self.horizontal_border()).wrap_with(FRAME_CORNER).to_string()
    }

    /// The full frame: top border row, every content row wrapped in side
    /// glyphs, bottom border row.
    pub fn outputs(&self) -> (r: String)
        ensures
            r@ == rect_spec(self@),
    {
        proof {
            reveal_strlit("\n");
        }
        let mut out = self.outputs_border();
        let body = self.content.outputs();
        out.append("\n");
        out.append(body.as_str());
        out.append("\n");
        let bottom = self.outputs_border();
        out.append(bottom.as_str());
        assert(out@ =~= rect_spec(self@));
        out
    }
}

} // verus!
