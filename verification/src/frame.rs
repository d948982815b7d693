//! The top-level rendering: dispatch between the general frame and the
//! fixed frame of the empty text, and the structural laws of the output.

use vstd::prelude::*;
use crate::line::Line;
use crate::line::push_char;
use crate::rectangle::FRAME_CORNER;
use crate::rectangle::Rectangle;
use crate::rectangle::border_row_spec;
use crate::rectangle::border_spec;
use crate::rectangle::rect_spec;
use crate::textops::body_spec;
use crate::textops::has_newline;
use crate::textops::join_lines;
use crate::textops::lemma_join_push;
use crate::textops::lemma_remap_no_newline;
use crate::textops::lemma_split_around_newline;
use crate::textops::lemma_split_join;
use crate::textops::lemma_split_lines_len;
use crate::textops::lemma_split_lines_no_newline;
use crate::textops::lemma_split_single;
use crate::textops::lemma_wrap_no_newline;
use crate::textops::longest_of;
use crate::textops::split_lines;
use crate::textops::wrap_spec;
use crate::textops::wrapped_rows;

verus! {

/// The fixed frame of the empty text: two border rows around a single
/// placeholder bar, with no content row between them.
pub open spec fn empty_frame_spec() -> Seq<char> {
    wrap_spec(seq!['─'], FRAME_CORNER) + seq!['\n'] + wrap_spec(seq!['─'], FRAME_CORNER)
}

/// The rendering of `t`: the fixed two-row frame when `t` is empty, else
/// the full frame around the rows of `t`.
pub open spec fn frame_spec(t: Seq<char>) -> Seq<char> {
    if t.len() == 0 {
        empty_frame_spec()
    } else {
        rect_spec(split_lines(t))
    }
}

/// The fixed two-row frame rendered for empty input.
pub fn empty_rectangle_frame() -> (r: String)
    ensures
        r@ == empty_frame_spec(),
{
    proof {
        reveal_strlit("\n");
    }
    let mut bar = String::new();
    push_char(&mut bar, '─');
    assert(bar@ =~= seq!['─']);
    let row = Line::new(bar).wrap_with(FRAME_CORNER).to_string();
    let mut out = row.clone();
    out.append("\n");
    out.append(row.as_str());
    assert(out@ =~= empty_frame_spec());
    out
}

/// The general frame around `text`, whatever its rows hold.
pub fn rectangle_frame_with_text(text: &str) -> (r: String)
    ensures
        r@ == rect_spec(split_lines(text@)),
{
    let rectangle = Rectangle::new_from_text(text);
    rectangle.outputs()
}

/// Renders `text` inside a box: the fixed two-row frame when `text` is
/// empty, otherwise a top border row sized to the longest line, every line
/// of `text` wrapped in side glyphs, and a matching bottom border row.
pub fn rectangle_frame(text: &str) -> (r: String)
    ensures
        r@ == frame_spec(text@),
{
    if text.is_empty() {
        return empty_rectangle_frame();
    }
    rectangle_frame_with_text(text)
}

/// The frame as a join: for at least one row, the full frame is the border
/// row, the wrapped rows, and the border row again, joined with line breaks.
proof fn lemma_rect_as_join(ls: Seq<Seq<char>>)
    requires
        ls.len() >= 1,
    ensures
        rect_spec(ls) == join_lines(
            seq![border_row_spec(ls)] + wrapped_rows(ls, '│') + seq![border_row_spec(ls)],
            '\n',
        ),
{
    let b = border_row_spec(ls);
    let w = wrapped_rows(ls, '│');
    let rows = seq![b] + w + seq![b];
    assert(w + seq![b] =~~= w.push(b));
    lemma_join_push(w, b, '\n');
    assert(rows[0] == b);
    assert(rows.drop_first() =~~= w.push(b));
    assert(rows.len() >= 3);
    assert(join_lines(rows, '\n') == b + seq!['\n'] + (body_spec(ls) + seq!['\n'] + b));
    assert(b + seq!['\n'] + (body_spec(ls) + seq!['\n'] + b) =~= b + seq!['\n'] + body_spec(ls)
        + seq!['\n'] + b);
}

/// Structure of the output: for any non-empty text the rendering has exactly
/// two more rows than the text — its two border rows — and the empty text
/// renders to exactly two rows.
pub proof fn lemma_frame_line_count(t: Seq<char>)
    ensures
        t.len() == 0 ==> split_lines(frame_spec(t)).len() == 2,
        t.len() != 0 ==> split_lines(frame_spec(t)).len() == split_lines(t).len() + 2,
{
    if t.len() == 0 {
        let row = wrap_spec(seq!['─'], FRAME_CORNER);
        assert(!has_newline(seq!['─']));
        lemma_wrap_no_newline(seq!['─'], FRAME_CORNER);
        lemma_split_around_newline(row, row);
        lemma_split_single(row);
        assert(empty_frame_spec() =~= row + seq!['\n'] + row);
        assert(split_lines(empty_frame_spec()) == seq![row] + seq![row]);
    } else {
        let ls = split_lines(t);
        lemma_split_lines_len(t);
        lemma_split_lines_no_newline(t);
        let b = border_row_spec(ls);
        lemma_remap_no_newline(longest_of(ls), '-', 'ー');
        lemma_wrap_no_newline(border_spec(ls), FRAME_CORNER);
        let w = wrapped_rows(ls, '│');
        let rows = seq![b] + w + seq![b];
        assert forall|k: int| 0 <= k < rows.len() implies !has_newline(#[trigger] rows[k]) by {
            if 1 <= k < 1 + ls.len() {
                assert(rows[k] == wrap_spec(ls[k - 1], '│'));
                lemma_wrap_no_newline(ls[k - 1], '│');
            }
        }
        lemma_rect_as_join(ls);
        lemma_split_join(rows);
        assert(split_lines(frame_spec(t)).len() == rows.len());
    }
}

/// Determinism of rendering: texts of equal characters render to frames of
/// equal characters; the output is a function of the input alone.
pub proof fn lemma_render_deterministic(t1: Seq<char>, t2: Seq<char>)
    requires
        t1 == t2,
    ensures
        frame_spec(t1) == frame_spec(t2),
{
}

} // verus!
