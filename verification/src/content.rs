//! The ordered rows of the framed text, produced by splitting the input on
//! line breaks.

use vstd::prelude::*;
use crate::line::Line;
use crate::line::push_char;
use crate::textops::body_spec;
use crate::textops::has_newline;
use crate::textops::join_lines;
use crate::textops::lemma_join_push;
use crate::textops::lemma_longest_push;
use crate::textops::lemma_split_around_newline;
use crate::textops::lemma_split_single;
use crate::textops::longest_of;
use crate::textops::split_lines;
use crate::textops::wrap_spec;
use crate::textops::wrapped_rows;

verus! {

/// The ordered rows of the framed text; its view is the sequence of their
/// character sequences.
pub struct Content {
    lines: Vec<Line>,
}

impl View for Content {
    type V = Seq<Seq<char>>;

    closed spec fn view(&self) -> Seq<Seq<char>> {
        self.lines@.map_values(|l: Line| l@)
    }
}

impl Content {
    /// Splits `text` on line breaks into rows, one per segment; empty
    /// segments are kept, so a trailing line break yields a trailing empty
    /// row.
    #[verifier::loop_isolation(false)]
    pub fn new_from_text(text: &str) -> (r: Self)
        ensures
            r@ == split_lines(text@),
    {
        let n = text.unicode_len();
        let ghost f = |l: Line| l@;
        let mut lines: Vec<Line> = Vec::new();
        let mut cur = String::new();
        assert(cur@ + text@.subrange(0, n as int) =~= text@);
        assert(lines@.map_values(f) + split_lines(text@) =~~= split_lines(text@));
        let mut i: usize = 0;
        while i < n
            invariant
                n == text@.len(),
                i <= n,
                !has_newline(cur@),
                split_lines(text@) == lines@.map_values(f) + split_lines(
                    cur@ + text@.subrange(i as int, n as int),
                ),
            decreases n - i,
        {
            let c = text.get_char(i);
            let ghost tail = text@.subrange(i as int + 1, n as int);
            if c == '\n' {
                proof {
                    assert(cur@ + text@.subrange(i as int, n as int) =~= cur@ + seq!['\n']
                        + tail);
                    lemma_split_around_newline(cur@, tail);
                }
                let ghost old_lines = lines@;
                let ghost done = cur@;
                lines.push(Line::new(cur));
                cur = String::new();
                proof {
                    assert(lines@.len() == old_lines.len() + 1);
                    assert(lines@[old_lines.len() as int]@ == done);
                    assert forall|k: int| 0 <= k < lines@.len() implies lines@.map_values(f)[k]
                        == old_lines.map_values(f).push(done)[k] by {
                        if k < old_lines.len() {
                            assert(lines@[k] == old_lines[k]);
                        }
                    }
                    assert(lines@.map_values(f) =~~= old_lines.map_values(f).push(done));
                    assert(cur@ + tail =~= tail);
                    assert(old_lines.map_values(f) + (seq![done] + split_lines(tail))
                        =~~= old_lines.map_values(f).push(done) + split_lines(tail));
                }
            } else {
                let ghost prev = cur@;
                push_char(&mut cur, c);
                proof {
                    assert(cur@ + tail =~= prev + text@.subrange(i as int, n as int));
                    assert forall|k: int| 0 <= k < cur@.len() implies cur@[k] != '\n' by {
                        if k < prev.len() {
                            assert(cur@[k] == prev[k]);
                        } else {
                            assert(cur@[k] == c);
                        }
                    }
                }
            }
            i = i + 1;
        }
        proof {
            assert(cur@ + text@.subrange(n as int, n as int) =~= cur@);
            lemma_split_single(cur@);
        }
        let ghost old_lines = lines@;
        let ghost done = cur@;
        lines.push(Line::new(cur));
        proof {
            assert(lines@.map_values(f) =~~= old_lines.map_values(f).push(done));
            assert(old_lines.map_values(f) + seq![done] =~~= old_lines.map_values(f).push(
                done,
            ));
        }
        Content { lines }
    }

    /// The first row of maximal character count, as a line; an empty line if
    /// there are no rows at all.
    #[verifier::loop_isolation(false)]
    pub fn longest_line(&self) -> (r: Line)
        ensures
            r@ == longest_of(self@),
    {
        let ghost f = |l: Line| l@;
        let mut best: Line = Line::default();
        assert(longest_of(self@.subrange(0, 0)) == Seq::<char>::empty());
        let n = self.lines.len();
        let mut j: usize = 0;
        while j < n
            invariant
                n == self.lines.len(),
                j <= n,
                self@ == self.lines@.map_values(f),
                best@ == longest_of(self@.subrange(0, j as int)),
            decreases n - j,
        {
            proof {
                lemma_longest_push(self@.subrange(0, j as int), self@[j as int]);
                assert(self@.subrange(0, j as int + 1) =~~= self@.subrange(0, j as int).push(
                    self@[j as int],
                ));
            }
            if self.lines[j].count_chars() > best.count_chars() {
                best = self.lines[j].clone();
            }
            j = j + 1;
        }
        assert(self@.subrange(0, n as int) =~~= self@);
        best
    }

    /// Every row wrapped in the vertical side glyph, the wrapped rows joined
    /// with line breaks, keeping the order of the rows.
    #[verifier::loop_isolation(false)]
    pub fn outputs(&self) -> (r: String)
        ensures
            r@ == body_spec(self@),
    {
        let ghost f = |l: Line| l@;
        let mut out = String::new();
        let n = self.lines.len();
        let mut j: usize = 0;
        assert(out@ =~= join_lines(wrapped_rows(self@.subrange(0, 0), '│'), '\n'));
        while j < n
            invariant
                n == self.lines.len(),
                j <= n,
                self@ == self.lines@.map_values(f),
                out@ == join_lines(wrapped_rows(self@.subrange(0, j as int), '│'), '\n'),
            decreases n - j,
        {
            let ghost prefix = wrapped_rows(self@.subrange(0, j as int), '│');
            proof {
                lemma_join_push(prefix, wrap_spec(self@[j as int], '│'), '\n');
                assert(wrapped_rows(self@.subrange(0, j as int + 1), '│') =~~= prefix.push(
                    wrap_spec(self@[j as int], '│'),
                ));
            }
            if j > 0 {
                proof {
                    reveal_strlit("\n");
                }
                out.append("\n");
            } else {
                assert(prefix.len() == 0);
                assert(out@ =~= Seq::<char>::empty());
            }
            let wrapped = self.lines[j].wrap_with('│');
            let row = wrapped.to_string();
            out.append(row.as_str());
            assert(out@ =~= join_lines(
                wrapped_rows(self@.subrange(0, j as int + 1), '│'),
                '\n',
            ));
            j = j + 1;
        }
        assert(self@.subrange(0, n as int) =~~= self@);
        out
    }
}

} // verus!
