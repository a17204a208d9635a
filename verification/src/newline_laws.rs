//! How an edit changes the lines of a text that newlines separate.
use crate::cells::{
    boundary, cells, chars_in, lemma_cells_concat, lemma_cells_well_formed, lemma_chars_in_cells,
    well_formed,
};
use crate::doc::{splice, Doc};
use crate::text::{
    lemma_cells_of_chars, lemma_range_well_formed, lemma_starts_up_to, newline_doc, starts_up_to,
};
use vstd::prelude::*;

verus! {

/// No newline stands in `[a, b)`.
pub open spec fn no_newline(t: Seq<Option<char>>, a: int, b: int) -> bool {
    forall|k: int| a <= k < b ==> #[trigger] t[k] != Some('\n')
}

/// The bytes of line `i`, its newline included.
pub open spec fn line_cells(d: Doc, i: int) -> Seq<Option<char>> {
    d.cells.subrange(d.line_start(i), d.line_stop(i))
}

/// The starts of the lines of a text that is put together of two.
proof fn lemma_starts_of_two(p: Seq<Option<char>>, q: Seq<Option<char>>, k: int)
    requires
        0 <= k <= q.len(),
    ensures
        starts_up_to(p, p.len() as int).len() >= 1,
        starts_up_to(q, k).len() >= 1,
        starts_up_to(p + q, p.len() + k).len() == starts_up_to(p, p.len() as int).len()
            + starts_up_to(q, k).len() - 1,
        forall|i: int|
            0 <= i < starts_up_to(p, p.len() as int).len() ==> #[trigger] starts_up_to(
                p + q,
                p.len() + k,
            )[i] == starts_up_to(p, p.len() as int)[i],
        forall|i: int|
            1 <= i < starts_up_to(q, k).len() ==> starts_up_to(p + q, p.len() + k)[i
                + starts_up_to(p, p.len() as int).len() - 1] == p.len() + #[trigger] starts_up_to(
                q,
                k,
            )[i],
    decreases k,
{
    let a = starts_up_to(p, p.len() as int);
    if k == 0 {
        lemma_starts_len(p, p.len() as int);
        lemma_same_starts(p, p + q, p.len() as int);
    } else {
        lemma_starts_of_two(p, q, k - 1);
        assert((p + q)[p.len() + k - 1] == q[k - 1]);
        let m = a.len();
        let b = starts_up_to(p + q, p.len() + k - 1);
        let c = starts_up_to(q, k - 1);
        assert forall|i: int| 1 <= i < starts_up_to(q, k).len() implies starts_up_to(
            p + q,
            p.len() + k,
        )[i + m - 1] == p.len() + #[trigger] starts_up_to(q, k)[i] by {
            if i < c.len() {
                assert(b[i + m - 1] == p.len() + c[i]);
            }
        }
        assert forall|i: int| 0 <= i < m implies #[trigger] starts_up_to(p + q, p.len() + k)[i]
            == a[i] by {
            assert(b[i] == a[i]);
        }
    }
}

proof fn lemma_starts_len(t: Seq<Option<char>>, k: int)
    ensures
        starts_up_to(t, k).len() >= 1,
    decreases k,
{
    if k > 0 {
        lemma_starts_len(t, k - 1);
    }
}

proof fn lemma_same_starts(t: Seq<Option<char>>, u: Seq<Option<char>>, k: int)
    requires
        0 <= k <= t.len(),
        k <= u.len(),
        forall|j: int| 0 <= j < k ==> u[j] == #[trigger] t[j],
    ensures
        starts_up_to(u, k) == starts_up_to(t, k),
    decreases k,
{
    if k > 0 {
        lemma_same_starts(t, u, k - 1);
    }
}

proof fn lemma_no_starts(t: Seq<Option<char>>, k: int)
    requires
        0 <= k <= t.len(),
        no_newline(t, 0, k),
    ensures
        starts_up_to(t, k) == seq![0int],
    decreases k,
{
    if k > 0 {
        lemma_no_starts(t, k - 1);
    }
}

/// A newline and then none: two lines have started.
proof fn lemma_one_newline(m: Seq<Option<char>>)
    requires
        m.len() > 0,
        m[0] == Some('\n'),
        no_newline(m, 1, m.len() as int),
    ensures
        starts_up_to(m, m.len() as int).len() == 2,
{
    let one = m.take(1);
    let rest = m.skip(1);
    assert(m =~= one + rest);
    lemma_starts_of_two(one, rest, rest.len() as int);
    assert(starts_up_to(one, 0) == seq![0int]);
    assert(starts_up_to(one, 1) =~= seq![0int, 1]);
    assert forall|k: int| 0 <= k < rest.len() implies #[trigger] rest[k] != Some('\n') by {
        assert(rest[k] == m[1 + k]);
    }
    lemma_no_starts(rest, rest.len() as int);
}

proof fn lemma_seam_parts(
    p: Seq<Option<char>>,
    m: Seq<Option<char>>,
    s: Seq<Option<char>>,
    with: Seq<Option<char>>,
    t: Seq<Option<char>>,
    u: Seq<Option<char>>,
)
    requires
        t == p + (m + s),
        u == p + (with + s),
        starts_up_to(m, m.len() as int).len() == 2,
        no_newline(with, 0, with.len() as int),
    ensures
        ({
            let a = starts_up_to(p, p.len() as int);
            let x = starts_up_to(t, t.len() as int);
            let y = starts_up_to(u, u.len() as int);
            &&& y.len() == x.len() - 1
            &&& a.len() <= y.len()
            &&& forall|i: int| 0 <= i < a.len() ==> #[trigger] x[i] == a[i]
            &&& forall|i: int| 0 <= i < a.len() ==> #[trigger] y[i] == a[i]
            &&& forall|i: int|
                a.len() <= i < y.len() ==> #[trigger] y[i] == x[i + 1] + with.len() - m.len()
        }),
{
    lemma_starts_of_two(p, m + s, (m + s).len() as int);
    lemma_starts_of_two(p, with + s, (with + s).len() as int);
    lemma_starts_of_two(m, s, s.len() as int);
    lemma_starts_of_two(with, s, s.len() as int);
    lemma_no_starts(with, with.len() as int);
    let a = starts_up_to(p, p.len() as int);
    let x = starts_up_to(t, t.len() as int);
    let y = starts_up_to(u, u.len() as int);
    let ss = starts_up_to(s, s.len() as int);
    let ms = starts_up_to(m + s, (m + s).len() as int);
    let ws = starts_up_to(with + s, (with + s).len() as int);
    assert forall|i: int| a.len() <= i < y.len() implies #[trigger] y[i] == x[i + 1] + with.len()
        - m.len() by {
        let j = i - a.len() + 1;
        assert(1 <= j < ss.len());
        assert(ms[j + 1] == m.len() + ss[j]);
        assert(ws[j] == with.len() + ss[j]);
        assert(x[(j + 1) + a.len() - 1] == p.len() + ms[j + 1]);
        assert(y[j + a.len() - 1] == p.len() + ws[j]);
    }
}

/// Where the lines start once the end of a line and the front of the next are
/// replaced by a text without a newline.
pub proof fn lemma_seam_starts(d: Doc, line: int, stop: int, with: Seq<Option<char>>)
    requires
        d.wf(),
        d == newline_doc(d.cells),
        0 <= line,
        line + 1 < d.line_count(),
        d.line_stop(line) <= stop <= d.line_end(line + 1),
        no_newline(with, 0, with.len() as int),
    ensures
        ({
            let e = newline_doc(splice(d.cells, d.line_end(line), stop, with));
            &&& e.line_count() == d.line_count() - 1
            &&& d.line_end(line) + 1 == d.line_stop(line)
            &&& forall|i: int| 0 <= i <= line ==> #[trigger] e.line_start(i) == d.line_start(i)
            &&& forall|i: int|
                line < i <= e.line_count() ==> #[trigger] e.line_start(i) == d.line_start(i + 1)
                    + with.len() - (stop - d.line_end(line))
        }),
{
    let t = d.cells;
    let at = d.line_end(line);
    d.lemma_line_bounds(line);
    d.lemma_line_bounds(line + 1);
    lemma_newlines_in_lines(d, line);
    lemma_newlines_in_lines(d, line + 1);
    let p = t.take(at);
    let m = t.subrange(at, stop);
    let s = t.skip(stop);
    let u = splice(t, at, stop, with);
    assert(t =~= p + (m + s));
    assert(u =~= p + (with + s));
    assert forall|k: int| 1 <= k < m.len() implies #[trigger] m[k] != Some('\n') by {
        assert(m[k] == t[at + k]);
    }
    lemma_one_newline(m);
    lemma_seam_parts(p, m, s, with, t, u);
    lemma_prefix_len(d, line);
    let e = newline_doc(u);
    let a = starts_up_to(p, p.len() as int);
    assert forall|i: int| 0 <= i <= line implies #[trigger] e.line_start(i) == d.line_start(i) by {
        assert(d.starts[i] == a[i]);
        assert(e.starts[i] == a[i]);
    }
    assert forall|i: int| line < i <= e.line_count() implies #[trigger] e.line_start(i)
        == d.line_start(i + 1) + with.len() - (stop - at) by {
        if i < e.line_count() {
            assert(e.starts[i] == d.starts[i + 1] + with.len() - m.len());
        }
    }
}

/// The end of a line and the front of the next replaced by a text without a
/// newline: the two lines become one, and all other lines stay.
pub proof fn lemma_seam(d: Doc, line: int, stop: int, with: Seq<Option<char>>)
    requires
        d.wf(),
        d == newline_doc(d.cells),
        0 <= line,
        line + 1 < d.line_count(),
        d.line_stop(line) <= stop <= d.line_end(line + 1),
        no_newline(with, 0, with.len() as int),
    ensures
        ({
            let e = newline_doc(splice(d.cells, d.line_end(line), stop, with));
            &&& e.line_count() == d.line_count() - 1
            &&& e.line_start(line) == d.line_start(line)
            &&& forall|i: int| 0 <= i < line ==> #[trigger] line_cells(e, i) == line_cells(d, i)
            &&& forall|i: int|
                line < i < e.line_count() ==> #[trigger] line_cells(e, i) == line_cells(d, i + 1)
            &&& line_cells(e, line) == d.cells.subrange(d.line_start(line), d.line_end(line))
                + with + d.cells.subrange(stop, d.line_stop(line + 1))
        }),
{
    let t = d.cells;
    let at = d.line_end(line);
    let e = newline_doc(splice(t, at, stop, with));
    let delta = with.len() - (stop - at);
    d.lemma_line_bounds(line);
    d.lemma_line_bounds(line + 1);
    lemma_seam_starts(d, line, stop, with);
    assert forall|i: int| 0 <= i < line implies #[trigger] line_cells(e, i) == line_cells(d, i) by {
        assert(e.line_start(i) == d.line_start(i));
        assert(e.line_start(i + 1) == d.line_start(i + 1));
        d.lemma_line_bounds(i);
        assert(d.line_stop(i) <= d.line_start(line)) by {
            if i + 1 < line {
                assert(d.starts[i + 1] < d.starts[line]);
            }
        }
        assert(line_cells(e, i) =~= line_cells(d, i));
    }
    assert forall|i: int| line < i < e.line_count() implies #[trigger] line_cells(e, i)
        == line_cells(d, i + 1) by {
        assert(e.line_start(i) == d.line_start(i + 1) + delta);
        assert(e.line_start(i + 1) == d.line_start(i + 2) + delta);
        d.lemma_line_bounds(i + 1);
        assert(d.line_start(i + 1) >= d.line_stop(line + 1)) by {
            if i > line + 1 {
                assert(d.starts[line + 2] < d.starts[i + 1]);
            }
        }
        assert(line_cells(e, i) =~= line_cells(d, i + 1));
    }
    assert(e.line_start(line) == d.line_start(line));
    assert(e.line_start(line + 1) == d.line_start(line + 2) + delta);
    assert(line_cells(e, line) =~= t.subrange(d.line_start(line), at) + with + t.subrange(
        stop,
        d.line_stop(line + 1),
    ));
}

/// Newlines end lines and stand nowhere else.
pub proof fn lemma_newlines_in_lines(d: Doc, i: int)
    requires
        d.wf(),
        d == newline_doc(d.cells),
        0 <= i < d.line_count(),
    ensures
        no_newline(d.cells, d.line_start(i), d.line_end(i)),
        i + 1 < d.line_count() ==> d.line_end(i) + 1 == d.line_stop(i) && d.cells[d.line_end(i)]
            == Some('\n'),
        i + 1 == d.line_count() ==> d.line_end(i) == d.len(),
{
    let t = d.cells;
    let len = t.len() as int;
    d.lemma_line_bounds(i);
    lemma_starts_up_to(t, len);
    if i + 1 < d.line_count() {
        assert(t[d.starts[i + 1] - 1] == Some('\n'));
        assert(d.starts[i] < d.starts[i + 1]);
    }
    assert forall|k: int| d.line_start(i) <= k < d.line_end(i) implies #[trigger] t[k] != Some(
        '\n',
    ) by {
        if t[k] == Some('\n') {
            let j = lemma_newline_starts_a_line(t, k, len);
            assert(d.starts[j] == k + 1);
            if j <= i {
                assert(d.starts[j] <= d.starts[i]) by {
                    if j < i {
                        assert(d.starts[j] < d.starts[i]);
                    }
                }
            } else {
                assert(d.starts[i + 1] <= d.starts[j]) by {
                    if i + 1 < j {
                        assert(d.starts[i + 1] < d.starts[j]);
                    }
                }
                assert(k + 1 >= d.line_stop(i));
            }
        }
    }
    if i + 1 == d.line_count() && d.line_end(i) < d.line_stop(i) {
        let j = lemma_newline_starts_a_line(t, len - 1, len);
        assert(d.starts[j] == len);
        assert(d.starts[i] < d.line_stop(i));
        if j < i {
            assert(d.starts[j] < d.starts[i]);
        }
    }
}

proof fn lemma_newline_starts_a_line(t: Seq<Option<char>>, k: int, n: int) -> (j: int)
    requires
        0 <= k < n <= t.len(),
        t[k] == Some('\n'),
    ensures
        0 <= j < starts_up_to(t, n).len(),
        starts_up_to(t, n)[j] == k + 1,
    decreases n,
{
    if n == k + 1 {
        starts_up_to(t, n).len() - 1
    } else {
        lemma_newline_starts_a_line(t, k, n - 1)
    }
}

/// Up to where a line's contents end, as many lines have started.
proof fn lemma_prefix_len(d: Doc, i: int)
    requires
        d.wf(),
        d == newline_doc(d.cells),
        0 <= i < d.line_count(),
    ensures
        starts_up_to(d.cells.take(d.line_end(i)), d.line_end(i)).len() == i + 1,
{
    let t = d.cells;
    let at = d.line_end(i);
    d.lemma_line_bounds(i);
    let p = t.take(at);
    let q = t.skip(at);
    assert(t =~= p + q);
    lemma_starts_of_two(p, q, q.len() as int);
    let a = starts_up_to(p, at);
    lemma_newlines_in_lines(d, i);
    assert(well_formed(p)) by {
        lemma_range_well_formed(t, 0, at);
        assert(p =~= t.subrange(0, at));
    }
    lemma_starts_up_to(p, at);
    if a.len() > i + 1 {
        assert(d.starts[i + 1] == a[i + 1]);
        assert(a[i + 1] <= at);
        assert(d.starts[i + 1] == at + 1);
    } else if a.len() <= i {
        let c = starts_up_to(q, q.len() as int);
        let j = i - a.len() + 1;
        assert(1 <= j < c.len());
        assert(d.starts[j + a.len() - 1] == at + c[j]);
        lemma_starts_positive(q, q.len() as int, j);
        assert(d.starts[i] > at);
    }
}

proof fn lemma_starts_positive(t: Seq<Option<char>>, k: int, j: int)
    requires
        1 <= j < starts_up_to(t, k).len(),
    ensures
        starts_up_to(t, k)[j] > 0,
    decreases k,
{
    if k > 0 {
        if j < starts_up_to(t, k - 1).len() {
            lemma_starts_positive(t, k - 1, j);
        }
    }
}

/// A text between two boundaries of an encoded text replaced: the result is
/// encoded, and newlines separate its lines as before.
pub proof fn lemma_spliced(t: Seq<Option<char>>, a: int, b: int, with: Seq<char>)
    requires
        well_formed(t),
        0 <= a <= b <= t.len(),
        boundary(t, a),
        boundary(t, b),
    ensures
        well_formed(splice(t, a, b, cells(with))),
        chars_in(splice(t, a, b, cells(with))) == chars_in(t.take(a)) + with + chars_in(t.skip(b)),
{
    let head = t.subrange(0, a);
    let tail = t.subrange(b, t.len() as int);
    assert(head =~= t.take(a));
    assert(tail =~= t.skip(b));
    lemma_range_well_formed(t, 0, a);
    lemma_range_well_formed(t, b, t.len() as int);
    lemma_cells_of_chars(head);
    lemma_cells_of_chars(tail);
    let s = chars_in(head) + with + chars_in(tail);
    lemma_cells_concat(chars_in(head), with);
    lemma_cells_concat(chars_in(head) + with, chars_in(tail));
    assert(cells(s) =~= splice(t, a, b, cells(with)));
    lemma_cells_well_formed(s);
    lemma_chars_in_cells(s);
}

} // verus!
