//! What joining lines leaves of a text.
use crate::buffer::{replaced_exact, VimBufferMut};
use crate::cells::{
    cells, char_cells, chars_in, lemma_cells_concat, lemma_chars_in_cells, lemma_chars_in_concat,
};
use crate::chars::white;
use crate::doc::{max, min, splice, Doc};
use crate::edits::{join_separator, leading_blanks, seam_stop, seam_text};
use crate::newline_laws::{
    lemma_newlines_in_lines, lemma_seam, lemma_seam_starts, lemma_spliced, line_cells,
};
use crate::state::World;
use crate::text::{
    lemma_cells_of_chars, lemma_newline_doc, lemma_range_well_formed, newline_doc,
};
use vstd::prelude::*;

verus! {

/// A buffer whose lines are what newlines separate.
pub open spec fn newline_buffer<B: VimBufferMut>() -> bool {
    forall|t: Seq<Option<char>>| #[trigger] B::doc_of(t) == newline_doc(t)
}

/// The engine edits a text whose lines are what newlines separate.
pub open spec fn on_lines(w: World) -> bool {
    &&& w.doc.wf()
    &&& w.doc == newline_doc(w.doc.cells)
    &&& w.editable
    &&& w.cursor() <= w.doc.len()
}

/// The text of line `i`.
pub open spec fn line_text(d: Doc, i: int) -> Seq<char> {
    d.slice(d.line_start(i), d.line_end(i))
}

/// `e` is `d` with the lines from `line` to `line + n` made one; all other
/// lines are as they were.
pub open spec fn lines_joined(d: Doc, e: Doc, line: int, n: int) -> bool {
    &&& e.line_count() == d.line_count() - n
    &&& forall|i: int| 0 <= i < line ==> #[trigger] line_cells(e, i) == line_cells(d, i)
    &&& forall|i: int|
        line < i < e.line_count() ==> #[trigger] line_cells(e, i) == line_cells(d, i + n)
}

pub proof fn lemma_leading(s: Seq<char>)
    ensures
        0 <= leading_blanks(s) <= s.len(),
        forall|i: int| 0 <= i < leading_blanks(s) ==> white(#[trigger] s[i]),
        leading_blanks(s) < s.len() ==> !white(s[leading_blanks(s)]),
    decreases s.len(),
{
    if s.len() > 0 && white(s[0]) {
        let rest = s.drop_first();
        lemma_leading(rest);
        assert forall|i: int| 0 <= i < leading_blanks(s) implies white(#[trigger] s[i]) by {
            if i > 0 {
                assert(s[i] == rest[i - 1]);
            }
        }
    }
}

/// The seam of two lines: where the text of the second begins.
proof fn lemma_seam_stop<B: VimBufferMut>(d: Doc, line: int)
    requires
        d.wf(),
        d == newline_doc(d.cells),
        0 <= line,
        line + 1 < d.line_count(),
    ensures
        ({
            let second = line_text(d, line + 1);
            let stop = seam_stop::<B>(d, line);
            let n = leading_blanks(second);
            &&& d.line_stop(line) <= stop <= d.line_end(line + 1)
            &&& d.at_boundary(stop)
            &&& d.slice(stop, d.line_end(line + 1)) == second.skip(n)
            &&& seam_text::<B>(d, line) == join_separator(line_text(d, line), second)
        }),
{
    reveal(seam_stop);
    reveal(seam_text);
    d.lemma_line_bounds(line);
    d.lemma_line_bounds(line + 1);
    let a = d.line_start(line + 1);
    let b = d.line_end(line + 1);
    B::piece_exact(d, a, b);
    B::piece_exact(d, d.line_start(line), d.line_end(line));
    let sub = d.cells.subrange(a, b);
    let second = chars_in(sub);
    let n = leading_blanks(second);
    lemma_leading(second);
    lemma_range_well_formed(d.cells, a, b);
    lemma_cells_of_chars(sub);
    let (x, y) = (second.take(n), second.skip(n));
    assert(second =~= x + y);
    lemma_cells_concat(x, y);
    let stop = a + cells(x).len();
    assert(stop <= b);
    assert(d.at_boundary(stop)) by {
        if y.len() > 0 {
            lemma_first_cell(y);
            assert(sub[cells(x).len() as int] == cells(y)[0]);
            assert(d.cells[stop] == sub[cells(x).len() as int]);
        } else {
            assert(cells(y).len() == 0);
        }
    }
    assert(sub == cells(x) + cells(y));
    assert(sub.skip(cells(x).len() as int) =~= cells(y));
    assert(d.cells.subrange(stop, b) =~= sub.skip(cells(x).len() as int));
    lemma_chars_in_cells(y);
}

proof fn lemma_first_cell(s: Seq<char>)
    requires
        s.len() > 0,
    ensures
        cells(s).len() > 0,
        cells(s)[0] == Some(s[0]),
    decreases s.len(),
{
    if s.len() > 1 {
        lemma_first_cell(s.drop_last());
    } else {
        assert(cells(s.drop_last()) =~= Seq::empty());
        assert(cells(s) =~= char_cells(s[0]));
    }
}

proof fn lemma_space_cells()
    ensures
        cells(seq![' ']) =~= seq![Some(' ')],
        cells(Seq::<char>::empty()) =~= Seq::<Option<char>>::empty(),
{
    let s = seq![' '];
    assert(s.drop_last() =~= Seq::empty());
    assert(cells(s.drop_last()) =~= Seq::empty());
    assert(cells(s) =~= char_cells(' '));
    assert(char_cells(' ') =~= seq![Some(' ')]);
}

/// What one join leaves: the two lines are one, with what the seam puts between
/// them, and the cursor is at the seam.
proof fn lemma_join_once<B: VimBufferMut>(w: World, literal: bool)
    requires
        newline_buffer::<B>(),
        B::takes(seq![' ']),
        on_lines(w),
        w.line() + 1 < w.doc.line_count(),
    ensures
        ({
            let d = w.doc;
            let line = w.line();
            let stop = if literal {
                d.line_stop(line)
            } else {
                seam_stop::<B>(d, line)
            };
            let with = if literal {
                Seq::empty()
            } else {
                seam_text::<B>(d, line)
            };
            let v = w.join_once::<B>(literal);
            &&& on_lines(v)
            &&& v.line() == line
            &&& v.cursor() == d.line_end(line)
            &&& v.doc == newline_doc(splice(d.cells, d.line_end(line), stop, cells(with)))
            &&& v.doc.line_start(line) == d.line_start(line)
            &&& lines_joined(d, v.doc, line, 1)
            &&& line_cells(v.doc, line) == d.cells.subrange(d.line_start(line), d.line_end(line))
                + cells(with) + d.cells.subrange(stop, d.line_stop(line + 1))
        }),
{
    let d = w.doc;
    let line = w.line();
    let at = d.line_end(line);
    reveal(World::join_once);
    reveal(World::edit_delete);
    reveal(World::edit_replace);
    d.lemma_line_of(w.cursor());
    d.lemma_line_bounds(line);
    d.lemma_line_bounds(line + 1);
    lemma_newlines_in_lines(d, line);
    lemma_seam_stop::<B>(d, line);
    lemma_space_cells();
    let stop = if literal {
        d.line_stop(line)
    } else {
        seam_stop::<B>(d, line)
    };
    let with = if literal {
        Seq::empty()
    } else {
        seam_text::<B>(d, line)
    };
    let t = splice(d.cells, at, stop, cells(with));
    let cut = splice(d.cells, at, stop, cells(Seq::empty()));
    lemma_spliced(d.cells, at, stop, with);
    lemma_spliced(d.cells, at, stop, Seq::empty());
    B::edited_exact(d, at, stop, Seq::empty());
    assert(with.len() == 0 || with == seq![' ']);
    assert(t.len() <= d.len());
    lemma_seam(d, line, stop, cells(with));
    lemma_seam(d, line, stop, cells(Seq::empty()));
    lemma_newline_doc(t);
    lemma_newline_doc(cut);
    if !literal {
        replaced_exact::<B>(d, at, stop, with);
        B::edited_exact(d, at, stop, with);
    }
    let v = w.join_once::<B>(literal);
    assert(v.doc == newline_doc(t));
    // the cursor's line
    if line + 1 < v.doc.line_count() {
        lemma_seam_starts(d, line, stop, cells(with));
        assert(v.doc.line_start(line + 1) == d.line_start(line + 2) + cells(with).len() - (stop
            - at));
        lemma_newlines_in_lines(d, line + 1);
        assert(d.line_start(line + 2) > stop);
    }
    v.doc.lemma_line_of_unique(at, line);
}

proof fn lemma_join_more<B: VimBufferMut>(w: World, n: int, literal: bool)
    requires
        newline_buffer::<B>(),
        B::takes(seq![' ']),
        on_lines(w),
        n >= 0,
    ensures
        ({
            let m = min(n, w.doc.line_count() - 1 - w.line());
            let v = w.join_more::<B>(n, literal);
            &&& on_lines(v)
            &&& v.line() == w.line()
            &&& lines_joined(w.doc, v.doc, w.line(), m)
            &&& v.doc.line_start(w.line()) == w.doc.line_start(w.line())
            &&& w.doc.cells.subrange(
                w.doc.line_start(w.line()),
                w.doc.line_end(w.line()),
            ).is_prefix_of(line_cells(v.doc, w.line()))
        }),
    decreases n,
{
    let line = w.line();
    w.doc.lemma_line_of(w.cursor());
    w.doc.lemma_line_bounds(line);
    if n > 0 && line + 1 < w.doc.line_count() {
        let u = w.join_once::<B>(literal);
        lemma_join_once::<B>(w, literal);
        lemma_join_more::<B>(u, n - 1, literal);
        let v = u.join_more::<B>(n - 1, literal);
        let m = min(n - 1, u.doc.line_count() - 1 - line);
        assert forall|i: int| 0 <= i < line implies #[trigger] line_cells(v.doc, i) == line_cells(
            w.doc,
            i,
        ) by {
            assert(line_cells(v.doc, i) == line_cells(u.doc, i));
        }
        assert forall|i: int| line < i < v.doc.line_count() implies #[trigger] line_cells(v.doc, i)
            == line_cells(w.doc, i + (m + 1)) by {
            assert(line_cells(v.doc, i) == line_cells(u.doc, i + m));
        }
        let head = w.doc.cells.subrange(w.doc.line_start(line), w.doc.line_end(line));
        let mid = u.doc.cells.subrange(u.doc.line_start(line), u.doc.line_end(line));
        u.doc.lemma_line_bounds(line);
        assert(head.is_prefix_of(mid)) by {
            let whole = line_cells(u.doc, line);
            assert(whole.take(head.len() as int) =~= head);
            lemma_newlines_in_lines(w.doc, line);
            lemma_newlines_in_lines(u.doc, line);
            assert(head.len() <= mid.len()) by {
                if mid.len() < head.len() {
                    assert(whole.len() == head.len());
                    assert(whole[mid.len() as int] == Some('\n'));
                    assert(head[mid.len() as int] == Some('\n'));
                    assert(w.doc.cells[w.doc.line_start(line) + mid.len()] == Some('\n'));
                }
            }
            assert(mid.take(head.len() as int) =~= head);
        }
        assert(head.is_prefix_of(line_cells(v.doc, line)));
    } else {
        assert(w.doc.cells.subrange(w.doc.line_start(line), w.doc.line_end(line)) =~= line_cells(
            w.doc,
            line,
        ).take(w.doc.line_end(line) - w.doc.line_start(line)));
    }
}

/// `{count}J` and `{count}gJ` make one line of `count` lines, of two at least
/// and of no more than there are. The lines before and behind them stay, and
/// the line that they make begins with what the cursor's line held.
pub proof fn a_count_of_lines_becomes_one<B: VimBufferMut>(w: World, count: int, literal: bool)
    requires
        newline_buffer::<B>(),
        B::takes(seq![' ']),
        on_lines(w),
    ensures
        ({
            let line = w.line();
            let wanted = if count < 2 {
                1
            } else {
                count - 1
            };
            let below = w.doc.line_count() - 1 - line;
            let fewer = if wanted < below {
                wanted
            } else {
                below
            };
            let after = w.join_lines::<B>(count, literal);
            &&& after.doc.line_count() == w.doc.line_count() - fewer
            &&& after.doc.line_start(line) == w.doc.line_start(line)
            &&& after.line() == line
            &&& forall|i: int|
                0 <= i < line ==> #[trigger] line_cells(after.doc, i) == line_cells(w.doc, i)
            &&& forall|i: int|
                line < i < after.doc.line_count() ==> #[trigger] line_cells(after.doc, i)
                    == line_cells(w.doc, i + fewer)
            &&& w.doc.cells.subrange(w.doc.line_start(line), w.doc.line_end(line)).is_prefix_of(
                line_cells(after.doc, line),
            )
        }),
{
    reveal(World::join_lines);
    w.doc.lemma_line_of(w.cursor());
    lemma_join_more::<B>(w, max(count, 2) - 1, literal);
}

/// `gJ` on two lines takes out the newline between them and nothing else; the
/// cursor is where it was.
pub proof fn a_literal_join_takes_out_the_newline<B: VimBufferMut>(w: World)
    requires
        newline_buffer::<B>(),
        B::takes(seq![' ']),
        on_lines(w),
        w.line() + 1 < w.doc.line_count(),
    ensures
        ({
            let at = w.doc.line_end(w.line());
            let after = w.join_lines::<B>(2, true);
            &&& w.doc.cells[at] == Some('\n')
            &&& after.doc.cells == w.doc.cells.take(at) + w.doc.cells.skip(at + 1)
            &&& after.cursor() == at
        }),
{
    reveal(World::join_lines);
    w.doc.lemma_line_of(w.cursor());
    w.doc.lemma_line_bounds(w.line());
    lemma_join_once::<B>(w, true);
    lemma_space_cells();
    lemma_newlines_in_lines(w.doc, w.line());
    let v = w.join_once::<B>(true);
    assert(w.join_more::<B>(1, true) == v) by {
        assert(v.join_more::<B>(0, true) == v);
    }
    let at = w.doc.line_end(w.line());
    assert(v.doc.cells =~= w.doc.cells.take(at) + w.doc.cells.skip(at + 1));
}

/// `J` on two lines: the white space in front of the second goes, and the two
/// meet with a space between them, or with nothing where the first ends in a
/// blank or the second goes on with a closing parenthesis. The cursor is where
/// they meet.
pub proof fn a_join_puts_a_space_between<B: VimBufferMut>(w: World) -> (n: int)
    requires
        newline_buffer::<B>(),
        B::takes(seq![' ']),
        on_lines(w),
        w.line() + 1 < w.doc.line_count(),
    ensures
        ({
            let line = w.line();
            let first = line_text(w.doc, line);
            let second = line_text(w.doc, line + 1);
            let after = w.join_lines::<B>(2, false);
            let rest = second.skip(n);
            let spaced = !(first.len() > 0 && (first.last() == ' ' || first.last() == '\t')) && !(
            rest.len() > 0 && rest[0] == ')');
            &&& 0 <= n <= second.len()
            &&& forall|i: int| 0 <= i < n ==> white(#[trigger] second[i])
            &&& n < second.len() ==> !white(second[n])
            &&& after.cursor() == w.doc.line_end(line)
            &&& chars_in(after.doc.cells) == chars_in(w.doc.cells.take(w.doc.line_end(line))) + (
            if spaced {
                seq![' ']
            } else {
                Seq::empty()
            }) + rest + chars_in(w.doc.cells.skip(w.doc.line_end(line + 1)))
        }),
{
    reveal(World::join_lines);
    let d = w.doc;
    let line = w.line();
    d.lemma_line_of(w.cursor());
    d.lemma_line_bounds(line);
    d.lemma_line_bounds(line + 1);
    lemma_join_once::<B>(w, false);
    lemma_seam_stop::<B>(d, line);
    let v = w.join_once::<B>(false);
    assert(w.join_more::<B>(1, false) == v) by {
        assert(v.join_more::<B>(0, false) == v);
    }
    let second = line_text(d, line + 1);
    let n = leading_blanks(second);
    lemma_leading(second);
    let at = d.line_end(line);
    let stop = seam_stop::<B>(d, line);
    let end = d.line_end(line + 1);
    let with = seam_text::<B>(d, line);
    lemma_spliced(d.cells, at, stop, with);
    let a = d.cells.subrange(stop, end);
    let b = d.cells.skip(end);
    assert(d.cells.skip(stop) =~= a + b);
    lemma_chars_in_concat(a, b);
    assert(chars_in(v.doc.cells) =~= chars_in(d.cells.take(at)) + with + second.skip(n) + chars_in(
        b,
    ));
    n
}

} // verus!
