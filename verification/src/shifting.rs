//! Shifting a line there and back: `<<` takes away what `>>` put in.
use crate::buffer::VimBufferMut;
use crate::cells::{boundary, cells, char_cells, char_fits, well_formed};
use crate::doc::{all_blanks, line_grew, splice, Doc};
use crate::edits::{indent_cut, indent_text, run_of, shift_unit};
use crate::rope::{line_ends_at, rope_doc, rope_starts};
use crate::state::{Vim, World};
use crate::text::{newline_doc, starts_up_to};
use vstd::prelude::*;

verus! {

// ---- a unit of indent -------------------------------------------------------------------------

proof fn lemma_run_cells(c: char, n: nat)
    requires
        c == ' ' || c == '\t',
    ensures
        cells(run_of(c, n as int)) == Seq::new(n, |i: int| Some(c)),
    decreases n,
{
    let s = run_of(c, n as int);
    if n > 0 {
        lemma_run_cells(c, (n - 1) as nat);
        assert(s.drop_last() =~= run_of(c, n - 1));
        assert(char_cells(c) =~= seq![Some(c)]);
        assert(cells(s) =~= Seq::new(n, |i: int| Some(c)));
    } else {
        assert(cells(s) =~= Seq::new(n, |i: int| Some(c)));
    }
}

/// One unit of indent is blanks: so many spaces, or one tab.
proof fn lemma_indent_text(v: Vim)
    ensures
        indent_text(v).len() > 0,
        all_blanks(indent_text(v)),
        ({
            let x = cells(indent_text(v));
            &&& x.len() == if v.options.expandtab {
                shift_unit(v)
            } else {
                1
            }
            &&& forall|k: int|
                0 <= k < x.len() ==> #[trigger] x[k] == Some(
                    if v.options.expandtab {
                        ' '
                    } else {
                        '\t'
                    },
                )
        }),
{
    if v.options.expandtab {
        lemma_run_cells(' ', shift_unit(v) as nat);
    } else {
        assert(indent_text(v) =~= run_of('\t', 1));
        lemma_run_cells('\t', 1);
    }
    assert(all_blanks(indent_text(v)));
}

proof fn lemma_blanks_skipped(d: Doc, o: int, stop: int, end: int)
    requires
        0 <= o <= stop <= end <= d.len(),
        forall|k: int|
            o <= k < stop ==> #[trigger] d.cells[k] == Some(' ') || d.cells[k] == Some('\t'),
    ensures
        d.after_indent(o, end) == d.after_indent(stop, end),
    decreases stop - o,
{
    if o < stop {
        assert(d.cells[o] == Some(' ') || d.cells[o] == Some('\t'));
        lemma_blanks_skipped(d, o + 1, stop, end);
    }
}

proof fn lemma_indent_moved(a: Doc, b: Doc, o: int, end: int, n: int)
    requires
        0 <= o <= end <= a.len(),
        0 <= n,
        b.len() == a.len() + n,
        forall|k: int| o <= k < a.len() ==> #[trigger] a.cells[k] == b.cells[k + n],
    ensures
        b.after_indent(o + n, end + n) == a.after_indent(o, end) + n,
    decreases end - o,
{
    if o < end {
        assert(a.cells[o] == b.cells[o + n]);
        lemma_indent_moved(a, b, o + 1, end, n);
    }
}

proof fn lemma_cut_spaces(d: Doc, o: int, end: int, removed: int, unit: int)
    requires
        0 <= o,
        0 <= removed <= unit,
        o + (unit - removed) <= end <= d.len(),
        forall|k: int| o <= k < o + (unit - removed) ==> #[trigger] d.cells[k] == Some(' '),
    ensures
        indent_cut(d, o, end, removed, unit) == o + (unit - removed),
    decreases unit - removed,
{
    if removed < unit {
        assert(d.cells[o] == Some(' '));
        lemma_cut_spaces(d, o + 1, end, removed + 1, unit);
    }
}

/// A left shift undoes a right shift of a line that is not blank, with
/// `expandtab` on or off, in every buffer whose lines are those of its text.
pub proof fn left_shift_undoes_right_shift<B: VimBufferMut>(w: World, i: int)
    requires
        w.doc.wf(),
        w.doc == B::doc_of(w.doc.cells),
        w.editable,
        0 <= i < w.doc.line_count(),
        !w.doc.is_blank(i),
        w.shift_line::<B>(i, true).doc.wf(),
    ensures
        w.shift_line::<B>(i, true).shift_line::<B>(i, false).doc == w.doc,
{
    let d = w.doc;
    let unit = shift_unit(w.vim);
    let x = cells(indent_text(w.vim));
    let n = x.len() as int;
    let s = d.line_start(i);
    let e = d.line_end(i);
    let r = w.shift_line::<B>(i, true);
    d.lemma_line_bounds(i);
    lemma_indent_text(w.vim);
    assert(r.doc == B::edited(d, s, s, indent_text(w.vim)) && r.vim.options == w.vim.options
        && r.editable) by {
        reveal(World::shift_line);
        reveal(World::edit_insert);
    }
    B::blanks_join_their_line(d, i, indent_text(w.vim));
    B::edited_exact(d, s, s, indent_text(w.vim));
    let c = r.doc;
    assert(c.cells =~= d.cells.take(s) + x + d.cells.skip(s));
    c.lemma_line_bounds(i);
    assert forall|k: int| s <= k < s + n implies #[trigger] c.cells[k] == Some(
        if w.vim.options.expandtab {
            ' '
        } else {
            '\t'
        },
    ) by {
        assert(c.cells[k] == x[k - s]);
    }
    lemma_blanks_skipped(c, s, s + n, e + n);
    lemma_indent_moved(d, c, s, e, n);
    d.lemma_after_indent(s, e);
    let stop = s + c.indent(i);
    assert(c.indent(i) == n + d.indent(i));
    assert(indent_cut(c, s, stop, 0, unit) == s + n) by {
        if w.vim.options.expandtab {
            lemma_cut_spaces(c, s, stop, 0, unit);
        } else {
            assert(c.cells[s] == Some('\t'));
            assert(indent_cut(c, s + 1, stop, unit, unit) == s + 1);
        }
    }
    let l = r.shift_line::<B>(i, false);
    assert(l.doc == B::edited(c, s, s + n, Seq::empty())) by {
        reveal(World::shift_line);
        reveal(World::edit_delete);
    }
    assert(c.at_boundary(s + n)) by {
        if s + n < c.len() {
            assert(c.cells[s + n] == d.cells[s]);
        }
    }
    B::edited_exact(c, s, s + n, Seq::empty());
    assert(splice(c.cells, s, s + n, cells(Seq::<char>::empty())) =~= d.cells);
}

// ---- buffers whose lines are separated by newlines -------------------------------------------------

proof fn lemma_newline_starts(t: Seq<Option<char>>, u: Seq<Option<char>>, s: int, n: int, k: int)
    requires
        0 <= s <= k <= t.len(),
        1 <= n,
        u.len() == t.len() + n,
        forall|j: int| 0 <= j < s ==> u[j] == #[trigger] t[j],
        forall|j: int| s <= j < t.len() ==> u[j + n] == #[trigger] t[j],
        forall|j: int| s <= j < s + n ==> #[trigger] u[j] != Some('\n'),
    ensures
        starts_up_to(u, k + n).len() == starts_up_to(t, k).len(),
        starts_up_to(t, s).len() <= starts_up_to(t, k).len(),
        forall|j: int|
            0 <= j < starts_up_to(t, s).len() ==> #[trigger] starts_up_to(u, k + n)[j]
                == starts_up_to(t, k)[j] && starts_up_to(t, k)[j] == starts_up_to(t, s)[j],
        forall|j: int|
            starts_up_to(t, s).len() <= j < starts_up_to(t, k).len() ==> #[trigger] starts_up_to(
                u,
                k + n,
            )[j] == starts_up_to(t, k)[j] + n,
    decreases k,
{
    if k > s {
        lemma_newline_starts(t, u, s, n, k - 1);
        assert(u[k - 1 + n] == t[k - 1]);
    } else {
        lemma_same_starts(t, u, s);
        lemma_no_starts(u, s, n);
    }
}

proof fn lemma_same_starts(t: Seq<Option<char>>, u: Seq<Option<char>>, k: int)
    requires
        0 <= k <= t.len(),
        k <= u.len(),
        forall|j: int| 0 <= j < k ==> u[j] == #[trigger] t[j],
    ensures
        starts_up_to(u, k) == starts_up_to(t, k),
    decreases k,
{
    if k > 0 {
        assert(u[k - 1] == t[k - 1]);
        lemma_same_starts(t, u, k - 1);
    }
}

proof fn lemma_no_starts(u: Seq<Option<char>>, s: int, n: int)
    requires
        0 <= s,
        0 <= n,
        s + n <= u.len(),
        forall|j: int| s <= j < s + n ==> #[trigger] u[j] != Some('\n'),
    ensures
        starts_up_to(u, s + n) == starts_up_to(u, s),
    decreases n,
{
    if n > 0 {
        assert(u[s + n - 1] != Some('\n'));
        lemma_no_starts(u, s, n - 1);
    }
}

/// Where a start is, in a list of starts up to it.
proof fn lemma_start_index(t: Seq<Option<char>>, i: int, k: int)
    requires
        well_formed(t),
        0 <= k <= t.len(),
        0 <= i < starts_up_to(t, k).len(),
    ensures
        starts_up_to(t, starts_up_to(t, k)[i]).len() == i + 1,
    decreases k,
{
    crate::text::lemma_starts_up_to(t, k);
    if k > 0 {
        crate::text::lemma_starts_up_to(t, k - 1);
        if starts_up_to(t, k)[i] != k {
            lemma_start_index(t, i, k - 1);
        } else if i + 1 < starts_up_to(t, k).len() {
            assert(starts_up_to(t, k)[i] < starts_up_to(t, k)[i + 1]);
        }
    }
}

proof fn lemma_ends_grow(a: Doc, b: Doc, i: int, n: int)
    requires
        a.wf(),
        0 <= i < a.line_count(),
        b.line_count() == a.line_count(),
        b.line_start(i) == a.line_start(i),
        i + 1 < a.line_count() ==> b.starts[i + 1] == a.starts[i + 1] + n,
        b.len() == a.len() + n,
        0 <= n,
        a.line_start(i) < a.line_end(i),
        forall|j: int| a.line_start(i) <= j < a.len() ==> b.cells[j + n] == #[trigger] a.cells[j],
    ensures
        line_grew(a, b, i, n),
{
    a.lemma_line_bounds(i);
    let stop = a.line_stop(i);
    assert(b.cells[stop - 1 + n] == a.cells[stop - 1]);
}

/// The bytes of blanks.
proof fn lemma_blank_cells(blanks: Seq<char>)
    requires
        all_blanks(blanks),
    ensures
        cells(blanks).len() == blanks.len(),
        forall|k: int|
            0 <= k < cells(blanks).len() ==> #[trigger] cells(blanks)[k] == Some(' ') || cells(
                blanks,
            )[k] == Some('\t'),
    decreases blanks.len(),
{
    if blanks.len() > 0 {
        let before = blanks.drop_last();
        assert forall|k: int| 0 <= k < before.len() implies #[trigger] before[k] == ' '
            || before[k] == '\t' by {
            assert(blanks[k] == before[k]);
        }
        lemma_blank_cells(before);
        let c = blanks.last();
        assert(c == blanks[blanks.len() - 1]);
        assert(char_cells(c) =~= seq![Some(c)]);
    }
}

/// Blanks at the start of a line lengthen it where newlines separate the lines.
pub proof fn lemma_newline_blanks(d: Doc, i: int, blanks: Seq<char>)
    requires
        d.wf(),
        d == newline_doc(d.cells),
        0 <= i < d.line_count(),
        !d.is_blank(i),
        blanks.len() > 0,
        all_blanks(blanks),
    ensures
        line_grew(
            d,
            newline_doc(splice(d.cells, d.line_start(i), d.line_start(i), cells(blanks))),
            i,
            cells(blanks).len() as int,
        ),
{
    let t = d.cells;
    let x = cells(blanks);
    let n = x.len() as int;
    let s = d.line_start(i);
    d.lemma_line_bounds(i);
    d.lemma_after_indent(s, d.line_end(i));
    lemma_blank_cells(blanks);
    let u = splice(t, s, s, x);
    assert forall|j: int| s <= j < s + n implies #[trigger] u[j] != Some('\n') by {
        assert(u[j] == x[j - s]);
    }
    lemma_newline_starts(t, u, s, n, t.len() as int);
    lemma_start_index(t, i, t.len() as int);
    assert(starts_up_to(u, u.len() as int)[i] == starts_up_to(t, t.len() as int)[i]);
    if i + 1 < d.line_count() {
        assert(starts_up_to(u, u.len() as int)[i + 1] == starts_up_to(t, t.len() as int)[i + 1] + n);
    }
    lemma_ends_grow(d, newline_doc(u), i, n);
}

// ---- ropes ----------------------------------------------------------------------------------------

/// Blanks put at the start of a line end no line, and the lines behind them
/// end where they did.
proof fn lemma_rope_ends(t: Seq<Option<char>>, u: Seq<Option<char>>, s: int, n: int, k: int)
    requires
        well_formed(t),
        0 <= s < t.len(),
        boundary(t, s),
        s > 0 ==> line_ends_at(t, s),
        1 <= n,
        u.len() == t.len() + n,
        forall|j: int| 0 <= j < s ==> u[j] == #[trigger] t[j],
        forall|j: int| s <= j < t.len() ==> u[j + n] == #[trigger] t[j],
        forall|j: int| s <= j < s + n ==> #[trigger] u[j] == Some(' ') || u[j] == Some('\t'),
        0 < k <= t.len(),
    ensures
        k <= s ==> line_ends_at(u, k) == line_ends_at(t, k),
        k > s ==> line_ends_at(u, k + n) == line_ends_at(t, k),
        forall|j: int| s < j <= s + n ==> !#[trigger] line_ends_at(u, j),
{
    if s >= 1 {
        assert(char_fits(t, s - 1));
        assert(u[s - 1] == t[s - 1]);
    }
    if s >= 2 {
        assert(char_fits(t, s - 2));
        assert(u[s - 2] == t[s - 2]);
    }
    assert forall|j: int| s < j <= s + n implies !#[trigger] line_ends_at(u, j) by {
        assert(u[j - 1] == Some(' ') || u[j - 1] == Some('\t'));
        if j - 2 >= s {
            assert(u[j - 2] == Some(' ') || u[j - 2] == Some('\t'));
        }
        if j - 3 >= s {
            assert(u[j - 3] == Some(' ') || u[j - 3] == Some('\t'));
        }
    }
    assert(u[s] == Some(' ') || u[s] == Some('\t'));
    if k <= s {
        assert(u[k - 1] == t[k - 1]);
        if k >= 2 {
            assert(u[k - 2] == t[k - 2]);
        }
        if k >= 3 {
            assert(u[k - 3] == t[k - 3]);
        }
        if k < s {
            assert(u[k] == t[k]);
        }
    } else {
        assert(u[k - 1 + n] == t[k - 1]);
        if k < t.len() {
            assert(u[k + n] == t[k]);
        }
        if k - 2 >= s {
            assert(u[k - 2 + n] == t[k - 2]);
        } else {
            assert(u[k - 2 + n] == Some(' ') || u[k - 2 + n] == Some('\t'));
        }
        if k - 3 >= s {
            assert(u[k - 3 + n] == t[k - 3]);
        } else if k - 3 + n >= s {
            assert(u[k - 3 + n] == Some(' ') || u[k - 3 + n] == Some('\t'));
        }
    }
}

proof fn lemma_rope_grows(t: Seq<Option<char>>, u: Seq<Option<char>>, s: int, n: int, k: int)
    requires
        well_formed(t),
        0 <= s < t.len(),
        boundary(t, s),
        s > 0 ==> line_ends_at(t, s),
        1 <= n,
        u.len() == t.len() + n,
        forall|j: int| 0 <= j < s ==> u[j] == #[trigger] t[j],
        forall|j: int| s <= j < t.len() ==> u[j + n] == #[trigger] t[j],
        forall|j: int| s <= j < s + n ==> #[trigger] u[j] == Some(' ') || u[j] == Some('\t'),
        s <= k <= t.len(),
    ensures
        rope_starts(u, k + n).len() == rope_starts(t, k).len(),
        rope_starts(t, s).len() <= rope_starts(t, k).len(),
        forall|j: int|
            0 <= j < rope_starts(t, s).len() ==> #[trigger] rope_starts(u, k + n)[j] == rope_starts(
                t,
                k,
            )[j] && rope_starts(t, k)[j] == rope_starts(t, s)[j],
        forall|j: int|
            rope_starts(t, s).len() <= j < rope_starts(t, k).len() ==> #[trigger] rope_starts(
                u,
                k + n,
            )[j] == rope_starts(t, k)[j] + n,
    decreases k,
{
    if k > s {
        lemma_rope_grows(t, u, s, n, k - 1);
        lemma_rope_ends(t, u, s, n, k);
        let (a, b) = (rope_starts(t, k - 1), rope_starts(u, k - 1 + n));
        assert(b.len() == a.len() && rope_starts(t, s).len() <= a.len());
        if line_ends_at(t, k) {
            assert(rope_starts(t, k) == a.push(k));
            assert(rope_starts(u, k + n) == b.push(k + n));
        } else {
            assert(rope_starts(t, k) == a);
            assert(rope_starts(u, k + n) == b);
        }
        assert forall|j: int| 0 <= j < rope_starts(t, s).len() implies #[trigger] rope_starts(
            u,
            k + n,
        )[j] == rope_starts(t, k)[j] && rope_starts(t, k)[j] == rope_starts(t, s)[j] by {
            assert(b[j] == a[j] && a[j] == rope_starts(t, s)[j]);
        }
    } else {
        lemma_same_rope_starts(t, u, s, n, s);
        lemma_no_rope_starts(t, u, s, n, n);
    }
}

proof fn lemma_same_rope_starts(t: Seq<Option<char>>, u: Seq<Option<char>>, s: int, n: int, k: int)
    requires
        well_formed(t),
        0 <= s < t.len(),
        boundary(t, s),
        s > 0 ==> line_ends_at(t, s),
        1 <= n,
        u.len() == t.len() + n,
        forall|j: int| 0 <= j < s ==> u[j] == #[trigger] t[j],
        forall|j: int| s <= j < t.len() ==> u[j + n] == #[trigger] t[j],
        forall|j: int| s <= j < s + n ==> #[trigger] u[j] == Some(' ') || u[j] == Some('\t'),
        0 <= k <= s,
    ensures
        rope_starts(u, k) == rope_starts(t, k),
    decreases k,
{
    if k > 0 {
        lemma_same_rope_starts(t, u, s, n, k - 1);
        lemma_rope_ends(t, u, s, n, k);
    }
}

proof fn lemma_no_rope_starts(
    t: Seq<Option<char>>,
    u: Seq<Option<char>>,
    s: int,
    n: int,
    m: int,
)
    requires
        well_formed(t),
        0 <= s < t.len(),
        boundary(t, s),
        s > 0 ==> line_ends_at(t, s),
        1 <= n,
        u.len() == t.len() + n,
        forall|j: int| 0 <= j < s ==> u[j] == #[trigger] t[j],
        forall|j: int| s <= j < t.len() ==> u[j + n] == #[trigger] t[j],
        forall|j: int| s <= j < s + n ==> #[trigger] u[j] == Some(' ') || u[j] == Some('\t'),
        0 <= m <= n,
    ensures
        rope_starts(u, s + m) == rope_starts(u, s),
    decreases m,
{
    if m > 0 {
        lemma_no_rope_starts(t, u, s, n, m - 1);
        lemma_rope_ends(t, u, s, n, s + 1);
        assert(!line_ends_at(u, s + m));
    }
}

proof fn lemma_rope_start_index(t: Seq<Option<char>>, i: int, k: int)
    requires
        well_formed(t),
        0 <= k <= t.len(),
        0 <= i < rope_starts(t, k).len(),
    ensures
        rope_starts(t, rope_starts(t, k)[i]).len() == i + 1,
        rope_starts(t, k)[i] > 0 ==> line_ends_at(t, rope_starts(t, k)[i]),
    decreases k,
{
    crate::rope::lemma_rope_starts(t, k);
    if k > 0 {
        crate::rope::lemma_rope_starts(t, k - 1);
        if rope_starts(t, k)[i] != k {
            lemma_rope_start_index(t, i, k - 1);
        } else if i + 1 < rope_starts(t, k).len() {
            assert(rope_starts(t, k)[i] < rope_starts(t, k)[i + 1]);
        }
    }
}

/// Blanks at the start of a line of a rope lengthen it, whatever breaks its
/// lines.
pub proof fn lemma_rope_blanks(d: Doc, i: int, blanks: Seq<char>)
    requires
        d.wf(),
        d == rope_doc(d.cells),
        0 <= i < d.line_count(),
        !d.is_blank(i),
        blanks.len() > 0,
        all_blanks(blanks),
    ensures
        line_grew(
            d,
            rope_doc(splice(d.cells, d.line_start(i), d.line_start(i), cells(blanks))),
            i,
            cells(blanks).len() as int,
        ),
{
    let t = d.cells;
    let x = cells(blanks);
    let n = x.len() as int;
    let s = d.line_start(i);
    d.lemma_line_bounds(i);
    d.lemma_after_indent(s, d.line_end(i));
    lemma_blank_cells(blanks);
    let u = splice(t, s, s, x);
    assert forall|j: int| s <= j < s + n implies #[trigger] u[j] == Some(' ') || u[j] == Some(
        '\t',
    ) by {
        assert(u[j] == x[j - s]);
    }
    let all = rope_starts(t, t.len() as int);
    assert(d.starts[i] == all[i]);
    lemma_rope_start_index(t, i, t.len() as int);
    lemma_rope_grows(t, u, s, n, t.len() as int);
    let grown = rope_starts(u, u.len() as int);
    assert(grown[i] == all[i]);
    assert(u.last() == t.last());
    if i + 1 < d.line_count() {
        assert(grown[i + 1] == all[i + 1] + n);
    }
    lemma_ends_grow(d, rope_doc(u), i, n);
}

} // verus!
