//! The mathematical model of the frame: splitting text on line breaks,
//! joining rows, the border projection, side wrapping, and the choice of the
//! longest line.

use vstd::prelude::*;
use crate::width::spec_is_fullwidth;

verus! {

/// The segments of `t` between line breaks, in order. Empty segments are
/// kept, so a text ending in a line break has a trailing empty segment, and
/// the empty text has exactly one empty segment.
pub open spec fn split_lines(t: Seq<char>) -> Seq<Seq<char>>
    decreases t.len(),
{
    if t.len() == 0 {
        seq![Seq::<char>::empty()]
    } else if t[0] == '\n' {
        seq![Seq::<char>::empty()] + split_lines(t.drop_first())
    } else {
        let rest = split_lines(t.drop_first());
        seq![seq![t[0]] + rest[0]] + rest.drop_first()
    }
}

/// The rows of `ls` joined into one text, with `sep` between neighbours.
pub open spec fn join_lines(ls: Seq<Seq<char>>, sep: char) -> Seq<char>
    decreases ls.len(),
{
    if ls.len() == 0 {
        Seq::<char>::empty()
    } else if ls.len() == 1 {
        ls[0]
    } else {
        ls[0] + seq![sep] + join_lines(ls.drop_first(), sep)
    }
}

/// Whether `s` contains a line break.
pub open spec fn has_newline(s: Seq<char>) -> bool {
    exists|i: int| 0 <= i < s.len() && s[i] == '\n'
}

/// `s` with every character replaced by a border glyph of its width class:
/// `full` where the character is full-width, `half` where it is narrow.
pub open spec fn remap_spec(s: Seq<char>, half: char, full: char) -> Seq<char> {
    s.map_values(|c: char| if spec_is_fullwidth(c) { full } else { half })
}

/// `s` wrapped in a symbol and one space of padding on either side.
pub open spec fn wrap_spec(s: Seq<char>, symbol: char) -> Seq<char> {
    seq![symbol, ' '] + s + seq![' ', symbol]
}

/// Every row of `ls` wrapped in `symbol` with a space of padding.
pub open spec fn wrapped_rows(ls: Seq<Seq<char>>, symbol: char) -> Seq<Seq<char>> {
    ls.map_values(|s: Seq<char>| wrap_spec(s, symbol))
}

/// The body of the frame: every row wrapped in the vertical side glyph, the
/// wrapped rows joined with line breaks.
pub open spec fn body_spec(ls: Seq<Seq<char>>) -> Seq<char> {
    join_lines(wrapped_rows(ls, '│'), '\n')
}

/// The first row of `ls` of maximal length; the empty row if `ls` is empty.
pub open spec fn longest_of(ls: Seq<Seq<char>>) -> Seq<char>
    decreases ls.len(),
{
    if ls.len() == 0 {
        Seq::<char>::empty()
    } else {
        let rest = longest_of(ls.drop_first());
        if rest.len() > ls[0].len() {
            rest
        } else {
            ls[0]
        }
    }
}

/// The index of the first row of maximal length.
pub open spec fn longest_index(ls: Seq<Seq<char>>) -> int
    decreases ls.len(),
{
    if ls.len() <= 1 {
        0
    } else {
        let r = longest_index(ls.drop_first());
        if ls.drop_first()[r].len() > ls[0].len() {
            r + 1
        } else {
            0
        }
    }
}

/// Splitting always yields at least one segment.
pub proof fn lemma_split_lines_len(t: Seq<char>)
    ensures
        split_lines(t).len() >= 1,
    decreases t.len(),
{
    if t.len() == 0 {
    } else {
        lemma_split_lines_len(t.drop_first());
    }
}

/// No segment of a split contains a line break.
pub proof fn lemma_split_lines_no_newline(t: Seq<char>)
    ensures
        forall|k: int|
            0 <= k < split_lines(t).len() ==> !has_newline(#[trigger] split_lines(t)[k]),
    decreases t.len(),
{
    if t.len() == 0 {
    } else if t[0] == '\n' {
        lemma_split_lines_no_newline(t.drop_first());
        assert forall|k: int| 0 <= k < split_lines(t).len() implies !has_newline(
            #[trigger] split_lines(t)[k],
        ) by {
            if k > 0 {
                assert(split_lines(t)[k] == split_lines(t.drop_first())[k - 1]);
            }
        }
    } else {
        lemma_split_lines_no_newline(t.drop_first());
        lemma_split_lines_len(t.drop_first());
        let rest = split_lines(t.drop_first());
        assert forall|k: int| 0 <= k < split_lines(t).len() implies !has_newline(
            #[trigger] split_lines(t)[k],
        ) by {
            if k == 0 {
                assert(split_lines(t)[0] == seq![t[0]] + rest[0]);
                assert(!has_newline(rest[0]));
                assert forall|i: int| 0 <= i < split_lines(t)[0].len() implies split_lines(
                    t,
                )[0][i] != '\n' by {
                    if i > 0 {
                        assert(split_lines(t)[0][i] == rest[0][i - 1]);
                    }
                }
            } else {
                assert(split_lines(t)[k] == rest.drop_first()[k - 1]);
                assert(rest.drop_first()[k - 1] == rest[k]);
            }
        }
    }
}

/// A text without a line break splits into exactly itself.
pub proof fn lemma_split_single(s: Seq<char>)
    requires
        !has_newline(s),
    ensures
        split_lines(s) == seq![s],
    decreases s.len(),
{
    if s.len() == 0 {
        assert(split_lines(s) =~~= seq![s]);
    } else {
        assert(s[0] != '\n');
        assert(!has_newline(s.drop_first())) by {
            assert forall|i: int| 0 <= i < s.drop_first().len() implies s.drop_first()[i]
                != '\n' by {
                assert(s.drop_first()[i] == s[i + 1]);
            }
        }
        lemma_split_single(s.drop_first());
        assert(split_lines(s) =~~= seq![s]) by {
            assert(split_lines(s.drop_first())[0] == s.drop_first());
            assert(seq![s[0]] + s.drop_first() =~= s);
        }
    }
}

/// Splitting `a`, a line break, then `r` yields `a` followed by the split of
/// `r`, provided `a` itself has no line break.
pub proof fn lemma_split_around_newline(a: Seq<char>, r: Seq<char>)
    requires
        !has_newline(a),
    ensures
        split_lines(a + seq!['\n'] + r) == seq![a] + split_lines(r),
    decreases a.len(),
{
    let t = a + seq!['\n'] + r;
    if a.len() == 0 {
        assert(t[0] == '\n');
        assert(t.drop_first() =~= r);
        assert(split_lines(t) =~~= seq![a] + split_lines(r)) by {
            assert(Seq::<char>::empty() =~= a);
        }
    } else {
        assert(t[0] == a[0]);
        assert(a[0] != '\n');
        assert(!has_newline(a.drop_first())) by {
            assert forall|i: int| 0 <= i < a.drop_first().len() implies a.drop_first()[i]
                != '\n' by {
                assert(a.drop_first()[i] == a[i + 1]);
            }
        }
        assert(t.drop_first() =~= a.drop_first() + seq!['\n'] + r);
        lemma_split_around_newline(a.drop_first(), r);
        let rest = split_lines(t.drop_first());
        assert(rest[0] == a.drop_first());
        assert(rest.drop_first() =~~= split_lines(r));
        assert(seq![t[0]] + rest[0] =~= a);
        assert(split_lines(t) =~~= seq![a] + split_lines(r));
    }
}

/// Joining rows with a line break and splitting again gives the rows back,
/// provided there is at least one row and none contains a line break.
pub proof fn lemma_split_join(ls: Seq<Seq<char>>)
    requires
        ls.len() >= 1,
        forall|k: int| 0 <= k < ls.len() ==> !has_newline(#[trigger] ls[k]),
    ensures
        split_lines(join_lines(ls, '\n')) == ls,
    decreases ls.len(),
{
    if ls.len() == 1 {
        lemma_split_single(ls[0]);
        assert(split_lines(join_lines(ls, '\n')) =~~= ls);
    } else {
        assert(forall|k: int|
            0 <= k < ls.drop_first().len() ==> !has_newline(#[trigger] ls.drop_first()[k]));
        lemma_split_join(ls.drop_first());
        lemma_split_around_newline(ls[0], join_lines(ls.drop_first(), '\n'));
        assert(split_lines(join_lines(ls, '\n')) =~~= ls);
    }
}

/// Appending a row extends a join by a separator and that row.
pub proof fn lemma_join_push(ls: Seq<Seq<char>>, x: Seq<char>, sep: char)
    ensures
        join_lines(ls.push(x), sep) == (if ls.len() == 0 {
            x
        } else {
            join_lines(ls, sep) + seq![sep] + x
        }),
    decreases ls.len(),
{
    if ls.len() == 0 {
        assert(ls.push(x).len() == 1);
        assert(ls.push(x)[0] == x);
    } else if ls.len() == 1 {
        assert(ls.push(x).drop_first() =~~= seq![x]);
        assert(join_lines(seq![x], sep) == x);
        assert(ls.push(x)[0] == ls[0]);
        assert(join_lines(ls, sep) == ls[0]);
    } else {
        assert(ls.push(x).drop_first() =~~= ls.drop_first().push(x));
        lemma_join_push(ls.drop_first(), x, sep);
        assert(ls.push(x)[0] == ls[0]);
        assert(join_lines(ls.push(x), sep) == ls[0] + seq![sep] + join_lines(
            ls.drop_first().push(x),
            sep,
        ));
        assert(ls[0] + seq![sep] + (join_lines(ls.drop_first(), sep) + seq![sep] + x) =~= (ls[0]
            + seq![sep] + join_lines(ls.drop_first(), sep)) + seq![sep] + x);
    }
}

/// Appending a row replaces the longest row only when it is strictly longer.
pub proof fn lemma_longest_push(ls: Seq<Seq<char>>, x: Seq<char>)
    ensures
        longest_of(ls.push(x)) == (if x.len() > longest_of(ls).len() {
            x
        } else {
            longest_of(ls)
        }),
    decreases ls.len(),
{
    if ls.len() == 0 {
        assert(ls.push(x).drop_first() =~~= Seq::<Seq<char>>::empty());
        assert(ls.push(x)[0] == x);
        assert(longest_of(Seq::<Seq<char>>::empty()) == Seq::<char>::empty());
        assert(longest_of(ls.push(x)) == x);
        if x.len() == 0 {
            assert(x =~= Seq::<char>::empty());
        }
    } else {
        assert(ls.push(x).drop_first() =~~= ls.drop_first().push(x));
        lemma_longest_push(ls.drop_first(), x);
        assert(ls.push(x)[0] == ls[0]);
        let rest = longest_of(ls.drop_first().push(x));
        assert(longest_of(ls.push(x)) == (if rest.len() > ls[0].len() {
            rest
        } else {
            ls[0]
        }));
    }
}

/// Tie-break: the longest row stands at `longest_index`, every row is at most
/// as long, and every row before it is strictly shorter — among rows of equal
/// maximal length the leftmost one is chosen.
pub proof fn lemma_longest_is_first_max(ls: Seq<Seq<char>>)
    requires
        ls.len() >= 1,
    ensures
        0 <= longest_index(ls) < ls.len(),
        longest_of(ls) == ls[longest_index(ls)],
        forall|j: int| 0 <= j < ls.len() ==> (#[trigger] ls[j]).len() <= longest_of(ls).len(),
        forall|j: int| 0 <= j < longest_index(ls) ==> (#[trigger] ls[j]).len() < longest_of(
            ls,
        ).len(),
    decreases ls.len(),
{
    if ls.len() == 1 {
        assert(longest_of(ls.drop_first()) == Seq::<char>::empty());
        assert(longest_of(ls) == ls[0]);
    } else {
        let d = ls.drop_first();
        lemma_longest_is_first_max(d);
        assert(forall|j: int| 1 <= j < ls.len() ==> #[trigger] ls[j] == d[j - 1]);
        let r = longest_index(d);
        assert(longest_of(d) == d[r]);
        if d[r].len() > ls[0].len() {
            assert(longest_index(ls) == r + 1);
            assert(longest_of(ls) == longest_of(d));
            assert(ls[r + 1] == d[r]);
        } else {
            assert(longest_index(ls) == 0);
            assert(longest_of(ls) == ls[0]);
        }
    }
}

/// A border projection contains no line break when neither glyph is one.
pub proof fn lemma_remap_no_newline(s: Seq<char>, half: char, full: char)
    requires
        half != '\n',
        full != '\n',
    ensures
        !has_newline(remap_spec(s, half, full)),
{
    assert forall|i: int| 0 <= i < remap_spec(s, half, full).len() implies remap_spec(
        s,
        half,
        full,
    )[i] != '\n' by {}
}

/// A wrapped row contains no line break when its source and symbol have none.
pub proof fn lemma_wrap_no_newline(s: Seq<char>, symbol: char)
    requires
        !has_newline(s),
        symbol != '\n',
    ensures
        !has_newline(wrap_spec(s, symbol)),
{
    assert forall|i: int| 0 <= i < wrap_spec(s, symbol).len() implies wrap_spec(s, symbol)[i]
        != '\n' by {
        if 2 <= i < s.len() + 2 {
            assert(wrap_spec(s, symbol)[i] == s[i - 2]);
        }
    }
}

/// Width-projection correctness: the border projection keeps the length of
/// its source, and the glyph at each position matches the width class of the
/// source character there — the full glyph exactly where the character is
/// full-width, the half glyph everywhere else.
pub proof fn lemma_width_projection(s: Seq<char>, half: char, full: char)
    ensures
        remap_spec(s, half, full).len() == s.len(),
        forall|i: int|
            0 <= i < s.len() ==> remap_spec(s, half, full)[i] == (if spec_is_fullwidth(s[i]) {
                full
            } else {
                half
            }),
{
}

} // verus!
