//! Which number is counted on, and to what; and how lines are shifted.
use crate::buffer::VimBufferMut;
use crate::cells::{cells, lemma_cells_concat, width};
use crate::doc::Doc;
use crate::edit_laws::{
    at_work, lemma_begun, lemma_bumped, lemma_deleted, lemma_inserted, lemma_replaced, text_replaced,
};
use crate::edits::{indent_cut, indent_text, run_of, shift_unit};
use crate::host::Env;
use crate::join_laws::{newline_buffer, on_lines};
use crate::normal::Reply;
use crate::number::{
    digit_at, digit_from, digits_back, digits_on, minus_before, number_at, number_near,
    run_value, wrapped,
};
use crate::ops::{OpSpan, Operator};
use crate::state::World;
use crate::strs::{decimal, digits_value, signed_decimal};
use crate::tables::NormalCmd;
use vstd::prelude::*;

verus! {

/// A decimal digit starts at `k`.
pub open spec fn numeral(d: Doc, k: int) -> bool {
    d.char_at(k) matches Some(c) && '0' <= c <= '9'
}

proof fn lemma_digits_back(d: Doc, o: int, start: int)
    requires
        0 <= start <= o,
    ensures
        start <= digits_back(d, o, start) <= o,
        forall|k: int| digits_back(d, o, start) <= k < o ==> #[trigger] numeral(d, k),
        digits_back(d, o, start) > start ==> !numeral(d, digits_back(d, o, start) - 1),
    decreases o,
{
    if o > start && digit_at(d, o - 1) {
        lemma_digits_back(d, o - 1, start);
    }
}

proof fn lemma_digits_on(d: Doc, o: int, end: int)
    requires
        o <= end,
    ensures
        o <= digits_on(d, o, end) <= end,
        forall|k: int| o <= k < digits_on(d, o, end) ==> #[trigger] numeral(d, k),
        digits_on(d, o, end) < end ==> !numeral(d, digits_on(d, o, end)),
    decreases end - o,
{
    if o < end && digit_at(d, o) {
        lemma_digits_on(d, o + 1, end);
    }
}

proof fn lemma_digit_from(d: Doc, o: int, end: int)
    ensures
        match digit_from(d, o, end) {
            Some(a) => o <= a < end && numeral(d, a) && forall|k: int|
                o <= k < a ==> !#[trigger] numeral(d, k),
            None => forall|k: int| o <= k < end ==> !#[trigger] numeral(d, k),
        },
    decreases end - o,
{
    if o < end && !digit_at(d, o) {
        lemma_digit_from(d, o + 1, end);
    }
}

/// The number that `<C-a>` and `<C-x>` count: all the digits around the cursor
/// when it is on one, else the next digits behind it on its line. At the end of
/// the line it is the digits that the line ends with.
pub proof fn the_number_counted(d: Doc, o: int)
    requires
        d.wf(),
        0 <= o <= d.len(),
    ensures
        ({
            let line = d.line_of(o);
            let (from, end) = (d.line_start(line), d.line_end(line));
            match number_near(d, o) {
                Some((a, b)) => {
                    &&& from <= a < b <= end
                    &&& forall|k: int| a <= k < b ==> #[trigger] numeral(d, k)
                    &&& b < end ==> !numeral(d, b)
                    &&& o < end && numeral(d, o) ==> a <= o < b && (a > from ==> !numeral(
                        d,
                        a - 1,
                    ))
                    &&& o < end && !numeral(d, o) ==> o < a && forall|k: int|
                        o <= k < a ==> !#[trigger] numeral(d, k)
                    &&& o >= end ==> b == end && (a > from ==> !numeral(d, a - 1))
                },
                None => {
                    &&& forall|k: int| o <= k < end ==> !#[trigger] numeral(d, k)
                    &&& o >= end && from < end ==> !numeral(d, end - 1)
                },
            }
        }),
{
    let line = d.line_of(o);
    d.lemma_line_of(o);
    d.lemma_line_bounds(line);
    let (from, end) = (d.line_start(line), d.line_end(line));
    lemma_digits_back(d, o, from);
    lemma_digits_back(d, end, from);
    lemma_digit_from(d, o, end);
    if let Some((a, b)) = number_near(d, o) {
        lemma_digits_on(d, a, end);
        if o < end && numeral(d, o) {
            assert(b > o) by {
                if b <= o {
                    assert(!numeral(d, b));
                    assert(numeral(d, b));
                }
            }
        } else if o >= end {
            assert(a < end);
            if b < end {
                assert(numeral(d, b));
            }
        }
    }
}

/// The digits from `a` to `b` spell the number that is counted.
pub proof fn digits_are_read_as_decimal(d: Doc, a: int, b: int)
    requires
        d.wf(),
        0 <= a <= b <= d.len(),
        forall|k: int| a <= k < b ==> #[trigger] numeral(d, k),
    ensures
        run_value(d, a, b) == digits_value(d.slice(a, b)),
    decreases b - a,
{
    if a < b {
        assert(numeral(d, b - 1));
        digits_are_read_as_decimal(d, a, b - 1);
        let s = d.cells.subrange(a, b);
        assert(s.drop_last() =~= d.cells.subrange(a, b - 1));
        assert(d.slice(a, b) == d.slice(a, b - 1).push(d.char_at(b - 1)->0));
        assert(d.slice(a, b).drop_last() =~= d.slice(a, b - 1));
    } else {
        assert(d.cells.subrange(a, b) =~= Seq::empty());
    }
}

/// `<C-a>` adds the count to the number at the cursor and `<C-x>` takes it off.
/// The result stands in the number's place, in decimal, a minus before it where
/// it is negative; a minus before the digits belongs to the number.
pub proof fn numbers_are_counted<B: VimBufferMut>(
    w: World,
    env: Env,
    replies: Seq<Reply>,
    up: bool,
)
    requires
        newline_buffer::<B>(),
        at_work(w),
        number_near(w.doc, w.cursor()) is Some,
        forall|t: Seq<char>| #[trigger] B::takes(t),
        1 <= w.vim.total_count() < 1_000_000_000,
        ({
            let (a, b) = number_near(w.doc, w.cursor())->0;
            run_value(w.doc, a, b) < 1_000_000_000_000
        }),
        w.doc.len() + 100 < usize::MAX,
    ensures
        ({
            let (a, b) = number_near(w.doc, w.cursor())->0;
            let line = w.doc.line_of(a);
            let negative = a > w.doc.line_start(line) && w.doc.char_at(a - 1) == Some('-');
            let digits = digits_value(w.doc.slice(a, b));
            let n = if negative {
                -digits
            } else {
                digits
            };
            let m = if up {
                n + w.vim.total_count()
            } else {
                n - w.vim.total_count()
            };
            let start = if negative {
                a - 1
            } else {
                a
            };
            let cmd = if up {
                NormalCmd::IncrementNumber
            } else {
                NormalCmd::DecrementNumber
            };
            let after = w.normal_cmd::<B>(env, cmd, replies);
            &&& text_replaced(w.doc, after.doc, start, b, signed_decimal(m))
            &&& after.cursor() == start + cells(signed_decimal(m)).len() - 1
        }),
{
    let d = w.doc;
    let (a, b) = number_near(d, w.cursor())->0;
    the_number_counted(d, w.cursor());
    d.lemma_line_of(w.cursor());
    d.lemma_line_bounds(w.line());
    assert(numeral(d, a));
    d.lemma_char_fits(a);
    digits_are_read_as_decimal(d, a, b);
    lemma_value_positive(d, a, b);
    let by = w.vim.total_count();
    let value = run_value(d, a, b);
    let n = if minus_before(d, a) {
        -value
    } else {
        value
    };
    let m = if up {
        n + by
    } else {
        n - by
    };
    lemma_short(m);
    assert(d.at_boundary(b)) by {
        assert(numeral(d, b - 1));
        d.lemma_char_fits(b - 1);
    }
    if minus_before(d, a) {
        d.lemma_char_fits(a - 1);
    }
    lemma_begun(w);
    let u = w.without_count();
    lemma_counted::<B>(
        u,
        a,
        b,
        if up {
            by
        } else {
            -by
        },
    );
    lemma_counts_on::<B>(w, env, replies, up, a, b);
}

proof fn lemma_counts_on<B: VimBufferMut>(
    w: World,
    env: Env,
    replies: Seq<Reply>,
    up: bool,
    a: int,
    b: int,
)
    requires
        number_near(w.doc, w.cursor()) == Some((a, b)),
        1 <= w.vim.total_count() < 1_000_000_000,
    ensures
        w.normal_cmd::<B>(
            env,
            if up {
                NormalCmd::IncrementNumber
            } else {
                NormalCmd::DecrementNumber
            },
            replies,
        ) == w.without_count().count_number::<B>(
            a,
            b,
            if up {
                w.vim.total_count()
            } else {
                -w.vim.total_count()
            },
        ),
{
    reveal(World::normal_cmd);
    reveal(World::count_on);
}

proof fn lemma_counted<B: VimBufferMut>(u: World, a: int, b: int, delta: int)
    requires
        newline_buffer::<B>(),
        on_lines(u),
        u.doc.len() + 100 < usize::MAX,
        forall|t: Seq<char>| #[trigger] B::takes(t),
        0 <= a < b <= u.doc.len(),
        u.doc.at_boundary(a),
        u.doc.at_boundary(b),
        minus_before(u.doc, a) ==> a > 0 && u.doc.at_boundary(a - 1),
        0 <= run_value(u.doc, a, b) < 1_000_000_000_000,
        -1_000_000_000 < delta < 1_000_000_000,
    ensures
        ({
            let start = if minus_before(u.doc, a) {
                a - 1
            } else {
                a
            };
            let n = if minus_before(u.doc, a) {
                -run_value(u.doc, a, b)
            } else {
                run_value(u.doc, a, b)
            };
            let after = u.count_number::<B>(a, b, delta);
            &&& text_replaced(u.doc, after.doc, start, b, signed_decimal(n + delta))
            &&& after.cursor() == start + cells(signed_decimal(n + delta)).len() - 1
        }),
{
    reveal(World::count_number);
    lemma_begun(u);
    let start = if minus_before(u.doc, a) {
        a - 1
    } else {
        a
    };
    let n = if minus_before(u.doc, a) {
        -run_value(u.doc, a, b)
    } else {
        run_value(u.doc, a, b)
    };
    let m = n + delta;
    assert(number_at(u.doc, a, b) == n);
    assert(wrapped(m) == m);
    let text = signed_decimal(m);
    lemma_short(m);
    lemma_replaced::<B>(u.begin_edit(), start, b, text);
    let e = u.begin_edit().edit_replace::<B>(start, b, text);
    lemma_bumped::<B>(e);
    lemma_begun(e.bump::<B>().moved_to(start + cells(text).len() - 1));
}

proof fn lemma_value_positive(d: Doc, a: int, b: int)
    requires
        forall|k: int| a <= k < b ==> #[trigger] numeral(d, k),
    ensures
        run_value(d, a, b) >= 0,
    decreases b - a,
{
    if a < b {
        lemma_value_positive(d, a, b - 1);
        assert(numeral(d, b - 1));
    }
}

proof fn lemma_short(m: int)
    requires
        -2_000_000_000_000 < m < 2_000_000_000_000,
    ensures
        0 < cells(signed_decimal(m)).len() < 60,
        signed_decimal(m).len() > 0,
{
    let n = if m < 0 {
        -m
    } else {
        m
    };
    assert(zeros(13) == 10_000_000_000_000) by {
        reveal_with_fuel(zeros, 14);
    }
    lemma_decimal_short(n, 13);
    if m < 0 {
        lemma_cells_concat(seq!['-'], decimal(n));
        assert(seq!['-'].drop_last() =~= Seq::<char>::empty());
        assert(cells(seq!['-'].drop_last()) =~= Seq::empty());
        assert(cells(seq!['-']).len() == 1);
    }
}

/// `1` with `k` zeros behind it.
spec fn zeros(k: nat) -> int
    decreases k,
{
    if k == 0 {
        1
    } else {
        10 * zeros((k - 1) as nat)
    }
}

proof fn lemma_decimal_short(n: int, k: nat)
    requires
        0 <= n < zeros(k),
        1 <= k,
    ensures
        0 < cells(decimal(n)).len() <= 4 * k,
        decimal(n).len() > 0,
    decreases k,
{
    let s = decimal(n);
    if n < 10 {
        assert(s.drop_last() =~= Seq::<char>::empty());
        assert(cells(s.drop_last()) =~= Seq::empty());
        assert(cells(s).len() == width(s.last()));
    } else {
        assert(k > 1) by {
            assert(zeros(0) == 1);
        }
        lemma_decimal_short(n / 10, (k - 1) as nat);
        assert(s.drop_last() =~= decimal(n / 10));
        assert(cells(s).len() == cells(s.drop_last()).len() + width(s.last()));
    }
}

// ---- shifting ----------------------------------------------------------------------------

/// `>` puts one unit of indent before a line that is not blank: `shiftwidth`
/// spaces with expandtab, one at least, else a tab. A blank line stays.
pub proof fn a_line_is_shifted_right<B: VimBufferMut>(w: World, i: int)
    requires
        newline_buffer::<B>(),
        on_lines(w),
        0 <= i < w.doc.line_count(),
        forall|t: Seq<char>| #[trigger] B::takes(t),
        w.doc.len() + w.vim.options.shiftwidth + 1 < usize::MAX,
    ensures
        ({
            let unit = if w.vim.options.shiftwidth == 0 {
                1
            } else {
                w.vim.options.shiftwidth as int
            };
            let start = w.doc.line_start(i);
            let after = w.shift_line::<B>(i, true);
            &&& w.doc.is_blank(i) ==> after == w
            &&& !w.doc.is_blank(i) && w.vim.options.expandtab ==> text_replaced(
                w.doc,
                after.doc,
                start,
                start,
                Seq::new(unit as nat, |k: int| ' '),
            )
            &&& !w.doc.is_blank(i) && !w.vim.options.expandtab ==> text_replaced(
                w.doc,
                after.doc,
                start,
                start,
                seq!['\t'],
            )
        }),
{
    reveal(World::shift_line);
    w.doc.lemma_line_bounds(i);
    let unit = shift_unit(w.vim);
    assert(run_of(' ', unit) =~= Seq::new(unit as nat, |k: int| ' '));
    lemma_spaces(unit);
    let tab = seq!['\t'];
    assert(tab.drop_last() =~= Seq::<char>::empty());
    assert(cells(tab.drop_last()) =~= Seq::empty());
    assert(cells(tab).len() == 1);
    if !w.doc.is_blank(i) {
        lemma_inserted::<B>(w, w.doc.line_start(i), indent_text(w.vim));
    }
}

proof fn lemma_spaces(n: int)
    requires
        n >= 0,
    ensures
        cells(run_of(' ', n)).len() == n,
    decreases n,
{
    if n > 0 {
        lemma_spaces(n - 1);
        assert(run_of(' ', n).drop_last() =~= run_of(' ', n - 1));
    }
}

/// The columns of the blanks in `[a, b)`, a tab as wide as a unit.
pub open spec fn blank_columns(d: Doc, a: int, b: int, unit: int) -> int
    decreases b - a,
{
    if a >= b {
        0
    } else {
        blank_columns(d, a + 1, b, unit) + if d.char_at(a) == Some('\t') {
            unit
        } else {
            1
        }
    }
}

proof fn lemma_indent_cut(d: Doc, o: int, end: int, removed: int, unit: int)
    requires
        d.wf(),
        d.is_range(o, end),
        0 <= removed <= unit,
        unit >= 1,
        forall|k: int|
            o <= k < end ==> #[trigger] d.char_at(k) == Some(' ') || d.char_at(k) == Some('\t'),
    ensures
        ({
            let stop = indent_cut(d, o, end, removed, unit);
            &&& o <= stop <= end
            &&& d.at_boundary(stop)
            &&& removed + blank_columns(d, o, stop, unit) <= unit
            &&& stop < end ==> unit < removed + blank_columns(d, o, stop, unit) + if d.char_at(stop)
                == Some('\t') {
                unit
            } else {
                1
            }
        }),
    decreases end - o,
{
    if o < end && removed < unit {
        assert(d.char_at(o) == Some(' ') || d.char_at(o) == Some('\t'));
        d.lemma_char_fits(o);
        let wide = if d.char_at(o) == Some('\t') {
            unit
        } else {
            1
        };
        if removed + wide <= unit {
            lemma_indent_cut(d, o + 1, end, removed + wide, unit);
        }
    }
}

/// `<` takes blanks off the front of a line that is not blank: as many as fit
/// into one unit of indent, a tab being as wide as a unit.
pub proof fn a_line_is_shifted_left<B: VimBufferMut>(w: World, i: int) -> (stop: int)
    requires
        newline_buffer::<B>(),
        on_lines(w),
        w.doc.len() < usize::MAX,
        0 <= i < w.doc.line_count(),
    ensures
        ({
            let unit = if w.vim.options.shiftwidth == 0 {
                1
            } else {
                w.vim.options.shiftwidth as int
            };
            let d = w.doc;
            let start = d.line_start(i);
            let after = w.shift_line::<B>(i, false);
            &&& d.is_blank(i) ==> after == w
            &&& !d.is_blank(i) ==> {
                &&& start <= stop <= start + d.indent(i)
                &&& text_replaced(d, after.doc, start, stop, Seq::empty())
                &&& blank_columns(d, start, stop, unit) <= unit
                &&& stop < start + d.indent(i) ==> unit < blank_columns(d, start, stop, unit)
                    + if d.char_at(stop) == Some('\t') {
                    unit
                } else {
                    1
                }
            }
        }),
{
    reveal(World::shift_line);
    let d = w.doc;
    let start = d.line_start(i);
    d.lemma_line_bounds(i);
    d.lemma_first_non_blank(i);
    d.lemma_after_indent(start, d.line_end(i));
    let end = start + d.indent(i);
    let unit = shift_unit(w.vim);
    assert forall|k: int| start <= k < end implies #[trigger] d.char_at(k) == Some(' ')
        || d.char_at(k) == Some('\t') by {
        assert(d.cells[k] == Some(' ') || d.cells[k] == Some('\t'));
    }
    lemma_indent_cut(d, start, end, 0, unit);
    let stop = indent_cut(d, start, end, 0, unit);
    if !d.is_blank(i) {
        if d.indent(i) > 0 {
            lemma_deleted::<B>(w, start, stop);
        } else {
            assert(cells(Seq::<char>::empty()) =~= Seq::empty());
            assert(d.cells =~= d.cells.take(start) + cells(Seq::empty()) + d.cells.skip(start));
        }
    }
    stop
}

/// A shift of several lines shifts each of them once, from the first to the
/// last.
pub proof fn lines_are_shifted_one_by_one<B: VimBufferMut>(w: World, i: int, last: int, right: bool)
    ensures
        i == last ==> w.shift_lines::<B>(i, last, right) == w.shift_line::<B>(i, right),
        i < last ==> w.shift_lines::<B>(i, last, right) == w.shift_line::<B>(
            i,
            right,
        ).shift_lines::<B>(i + 1, last, right),
        i > last ==> w.shift_lines::<B>(i, last, right) == w,
{
    let v = w.shift_line::<B>(i, right);
    if i == last {
        assert(v.shift_lines::<B>(i + 1, last, right) == v);
    }
}

/// `>` and `<` shift all the lines that a span touches: from the one that it
/// begins in to the one that its last byte is in.
pub proof fn shifts_go_by_lines<B: VimBufferMut>(
    w: World,
    s: OpSpan,
    right: bool,
    register: Option<char>,
)
    requires
        w.doc.wf(),
        s.start < s.end <= w.doc.len(),
    ensures
        ({
            let op = if right {
                Operator::IndentRight
            } else {
                Operator::IndentLeft
            };
            w.apply::<B>(op, s, register).doc == w.shift_lines::<B>(
                w.doc.line_of(s.start as int),
                w.doc.line_of(s.end - 1),
                right,
            ).doc
        }),
{
    reveal(World::apply);
    reveal(World::operate);
    reveal(World::indent_span);
}

} // verus!
