//! What a command line means: its range, its command and its substitution.
use crate::buffer::VimBufferMut;
use crate::doc::Doc;
use crate::edit_laws::{lemma_begun, lemma_bumped, lemma_delete_span, text_replaced};
use crate::ex::{
    before_slash, behind_slash, change_of, digit_run, ex_of, picked, slash_index, unslashed, Spot,
};
use crate::join_laws::{newline_buffer, on_lines};
use crate::operators::lemma_line_order;
use crate::options::Options;
use crate::ops::line_span;
use crate::registers::{RegisterKind, Slot};
use crate::state::{Vim, World};
use crate::strs::{
    all_digits, digits_value, is_digit, lemma_digits_value, trim_back, trim_front,
};
use vstd::prelude::*;

verus! {

// ---- ranges ------------------------------------------------------------------------------

/// The line that a number names, counted from one: the first line for zero, the
/// last one where there are not so many.
pub open spec fn numbered_line(d: Doc, n: int) -> int {
    if n <= 1 {
        0
    } else if n <= d.line_count() {
        n - 1
    } else {
        d.line_count() - 1
    }
}

proof fn lemma_digit_run(x: Seq<char>, rest: Seq<char>)
    requires
        all_digits(x),
        rest.len() == 0 || !is_digit(rest[0]),
    ensures
        digit_run(x + rest) == x.len(),
    decreases x.len(),
{
    let s = x + rest;
    if x.len() == 0 {
        assert(s =~= rest);
    } else {
        assert(is_digit(x[0]));
        assert(s[0] == x[0]);
        let y = x.drop_first();
        assert(s.drop_first() =~= y + rest);
        assert forall|i: int| 0 <= i < y.len() implies is_digit(#[trigger] y[i]) by {
            assert(y[i] == x[i + 1]);
        }
        lemma_digit_run(y, rest);
    }
}

proof fn lemma_number_address(w: World, x: Seq<char>, rest: Seq<char>)
    requires
        all_digits(x),
        x.len() > 0,
        rest.len() == 0 || !is_digit(rest[0]),
        w.doc.wf(),
    ensures
        w.address(x + rest) == Spot::Line(
            numbered_line(w.doc, digits_value(x)),
            x.len() as int,
        ),
{
    reveal(World::address);
    lemma_digit_run(x, rest);
    assert(is_digit(x[0]));
    assert((x + rest)[0] == x[0]);
    assert((x + rest).take(x.len() as int) =~= x);
    lemma_digits_value(x);
}

/// Two numbers with a comma between them are the range of the lines from the
/// smaller to the larger.
pub proof fn two_numbers_are_a_range(w: World, x: Seq<char>, y: Seq<char>, rest: Seq<char>)
    requires
        w.doc.wf(),
        x.len() > 0,
        all_digits(x),
        y.len() > 0,
        all_digits(y),
        rest.len() == 0 || !is_digit(rest[0]),
    ensures
        ({
            let a = numbered_line(w.doc, digits_value(x));
            let b = numbered_line(w.doc, digits_value(y));
            let r = w.range(x + seq![','] + y + rest);
            &&& r is Some
            &&& r->0.given
            &&& r->0.first == if a <= b {
                a
            } else {
                b
            }
            &&& r->0.last == if a <= b {
                b
            } else {
                a
            }
            &&& r->0.used == x.len() + 1 + y.len()
        }),
{
    reveal(World::range);
    let s = x + seq![','] + y + rest;
    assert(s =~= x + (seq![','] + y + rest));
    assert(s[0] == x[0]);
    assert(is_digit(x[0]));
    lemma_number_address(w, x, seq![','] + y + rest);
    assert(s[x.len() as int] == ',');
    assert(s.skip(x.len() as int + 1) =~= y + rest);
    lemma_number_address(w, y, rest);
}

/// One number is the range of its line, `%` that of all lines, `.` that of the
/// cursor's and `$` that of the last. Without a range it is the cursor's line.
pub proof fn single_addresses(w: World, x: Seq<char>, rest: Seq<char>)
    requires
        w.doc.wf(),
        x.len() > 0,
        all_digits(x),
        rest.len() > 0 ==> !is_digit(rest[0]) && rest[0] != ',' && rest[0] != '%' && rest[0] != '.'
            && rest[0] != '$' && rest[0] != '\'',
    ensures
        ({
            let last = w.doc.line_count() - 1;
            let here = w.line();
            let one = |s: Seq<char>, first: int, last: int, given: bool, used: int|
                w.range(s) matches Some(r) && r.first == first && r.last == last && r.given == given
                    && r.used == used;
            &&& one(
                x + rest,
                numbered_line(w.doc, digits_value(x)),
                numbered_line(w.doc, digits_value(x)),
                true,
                x.len() as int,
            )
            &&& one(seq!['%'] + rest, 0, last, true, 1)
            &&& one(seq!['.'] + rest, here, here, true, 1)
            &&& one(seq!['$'] + rest, last, last, true, 1)
            &&& one(rest, here, here, false, 0)
        }),
{
    reveal(World::range);
    lemma_number_address(w, x, rest);
    assert(is_digit(x[0]));
    assert((x + rest)[0] == x[0]);
    if rest.len() > 0 {
        assert((x + rest)[x.len() as int] == rest[0]);
    }
    reveal(World::address);
    let p = seq!['%'] + rest;
    let d = seq!['.'] + rest;
    let e = seq!['$'] + rest;
    assert(p[0] == '%' && d[0] == '.' && e[0] == '$');
    if rest.len() > 0 {
        assert(d[1] == rest[0] && e[1] == rest[0]);
    }
}

/// `:d` takes the lines of its range out of the text.
pub proof fn ex_delete_takes_its_lines<B: VimBufferMut>(w: World, first: int, last: int)
    requires
        newline_buffer::<B>(),
        on_lines(w),
        w.doc.len() < usize::MAX,
        0 <= first <= last < w.doc.line_count(),
    ensures
        ({
            let d = w.doc;
            let (a, b) = (d.line_start(first), d.line_stop(last));
            let after = w.delete_lines::<B>(first, last);
            &&& text_replaced(d, after.doc, a, b, Seq::empty())
            &&& after.vim.registers == w.vim.registers.deleted(
                None,
                (Slot { text: d.slice(a, b), kind: RegisterKind::Linewise }),
            )
        }),
{
    let d = w.doc;
    d.lemma_line_bounds(first);
    d.lemma_line_bounds(last);
    if first < last {
        assert(d.starts[first] < d.starts[last]);
    }
    reveal(World::delete_lines);
    lemma_begun(w);
    let s = line_span(d, first, last);
    let b = w.begin_edit();
    lemma_delete_span::<B>(b, s, None);
    let e = b.delete_span::<B>(s, None);
    lemma_begun(e);
    lemma_bumped::<B>(e.end_edit());
}

/// A range alone goes to the first non-blank of its last line.
pub proof fn a_line_number_goes_there<B: VimBufferMut>(w: World, x: Seq<char>)
    requires
        w.doc.wf(),
        x.len() > 0,
        all_digits(x),
    ensures
        ({
            let after = w.run_ex::<B>(x);
            &&& after.doc == w.doc
            &&& after.cursor() == w.doc.first_non_blank(numbered_line(w.doc, digits_value(x)))
        }),
{
    reveal(World::run_ex);
    reveal(World::do_ex);
    reveal(World::go_to_line);
    reveal(Vim::record_jump);
    reveal(ex_of);
    assert(is_digit(x[0]) && is_digit(x[x.len() - 1]));
    assert(trim_front(x) == x);
    assert(trim_back(x) == x);
    let none = Seq::<char>::empty();
    assert(x + none =~= x);
    single_addresses(w, x, none);
    assert(x.skip(x.len() as int) =~= none);
    assert(trim_front(none) == none);
    assert(trim_back(none) == none);
    let line = numbered_line(w.doc, digits_value(x));
    w.doc.lemma_first_non_blank(line);
    w.doc.lemma_line_bounds(line);
}

/// `:noh` may be spelled out up to `:nohlsearch`.
pub proof fn noh_may_be_spelled_out(n: int)
    requires
        3 <= n <= 10,
    ensures
        ex_of("nohlsearch"@.take(n)) is NoHighlight,
{
    reveal(ex_of);
    reveal_strlit("nohlsearch");
    reveal_strlit("w");
    reveal_strlit("q");
    reveal_strlit("q!");
    reveal_strlit("wq");
    reveal_strlit("x");
    reveal_strlit("d");
    let s = "nohlsearch"@.take(n);
    assert(s.len() == n);
    assert("nohlsearch"@.take(s.len() as int) =~= s);
}

// ---- substitution ------------------------------------------------------------------------

/// No slash and no backslash.
pub open spec fn unslashed_text(s: Seq<char>) -> bool {
    forall|i: int| 0 <= i < s.len() ==> #[trigger] s[i] != '/' && s[i] != '\\'
}

proof fn lemma_slash_index(x: Seq<char>, rest: Seq<char>)
    requires
        unslashed_text(x),
        rest.len() == 0 || rest[0] == '/',
    ensures
        slash_index(x + rest) == x.len(),
    decreases x.len(),
{
    let s = x + rest;
    if x.len() == 0 {
        assert(s =~= rest);
    } else {
        assert(s[0] == x[0]);
        let y = x.drop_first();
        assert(s.drop_first() =~= y + rest);
        assert forall|i: int| 0 <= i < y.len() implies #[trigger] y[i] != '/' && y[i] != '\\' by {
            assert(y[i] == x[i + 1]);
        }
        lemma_slash_index(y, rest);
    }
}

proof fn lemma_unslashed(x: Seq<char>)
    requires
        unslashed_text(x),
    ensures
        unslashed(x) == x,
    decreases x.len(),
{
    if x.len() > 0 {
        let y = x.drop_first();
        assert(x[0] != '\\');
        assert forall|i: int| 0 <= i < y.len() implies #[trigger] y[i] != '/' && y[i] != '\\' by {
            assert(y[i] == x[i + 1]);
        }
        lemma_unslashed(y);
        assert(seq![x[0]] + y =~= x);
    }
}

proof fn lemma_cut(x: Seq<char>, rest: Seq<char>)
    requires
        unslashed_text(x),
    ensures
        before_slash(x + seq!['/'] + rest) == x,
        behind_slash(x + seq!['/'] + rest) == rest,
        before_slash(x) == x,
        behind_slash(x) == Seq::<char>::empty(),
{
    let s = x + seq!['/'] + rest;
    assert(s =~= x + (seq!['/'] + rest));
    lemma_slash_index(x, seq!['/'] + rest);
    assert(s.take(x.len() as int) =~= x);
    assert(s.skip(x.len() as int + 1) =~= rest);
    lemma_unslashed(x);
    let none = Seq::<char>::empty();
    assert(x + none =~= x);
    lemma_slash_index(x, none);
    assert(x.take(x.len() as int) =~= x);
}

/// What stands between the first two slashes is looked for and what stands
/// between the next two is put in its place. Behind them, `g` asks for every
/// match of a line, `i` for case to be ignored and `I` for it not to be. The
/// last slash may be left out.
pub proof fn slashes_part_a_substitution(p: Seq<char>, r: Seq<char>, flags: Seq<char>)
    requires
        unslashed_text(p),
        unslashed_text(r),
    ensures
        ({
            let c = change_of(p + seq!['/'] + r + seq!['/'] + flags);
            let short = change_of(p + seq!['/'] + r);
            &&& c.pattern == p
            &&& c.replacement == r
            &&& c.all == flags.contains('g')
            &&& flags.contains('i') ==> c.ignore_case == Some(true)
            &&& !flags.contains('i') && flags.contains('I') ==> c.ignore_case == Some(false)
            &&& !flags.contains('i') && !flags.contains('I') ==> c.ignore_case is None
            &&& short.pattern == p
            &&& short.replacement == r
            &&& !short.all
            &&& short.ignore_case is None
        }),
{
    let rest = r + seq!['/'] + flags;
    assert(p + seq!['/'] + r + seq!['/'] + flags =~= p + seq!['/'] + rest);
    lemma_cut(p, rest);
    lemma_cut(r, flags);
    lemma_cut(p, r);
    let none = Seq::<char>::empty();
    assert(slash_index(none) == 0);
    assert(behind_slash(none) =~= none);
}

/// A slash behind a backslash is part of what is looked for.
pub proof fn a_backslash_keeps_a_slash(a: Seq<char>, b: Seq<char>, rest: Seq<char>)
    requires
        unslashed_text(a),
        unslashed_text(b),
    ensures
        before_slash(a + seq!['\\', '/'] + b + seq!['/'] + rest) == a + seq!['/'] + b,
        behind_slash(a + seq!['\\', '/'] + b + seq!['/'] + rest) == rest,
    decreases a.len(),
{
    let s = a + seq!['\\', '/'] + b + seq!['/'] + rest;
    if a.len() == 0 {
        assert(s[0] == '\\' && s[1] == '/');
        let t = b + seq!['/'] + rest;
        assert(s.skip(2) =~= t);
        assert(t =~= b + (seq!['/'] + rest));
        lemma_slash_index(b, seq!['/'] + rest);
        let n = slash_index(s);
        assert(n == 2 + b.len());
        let u = s.take(n);
        assert(u =~= seq!['\\', '/'] + b);
        assert(u.skip(2) =~= b);
        lemma_unslashed(b);
        assert(unslashed(u) =~= a + seq!['/'] + b);
        assert(s.skip(n + 1) =~= rest);
    } else {
        let c = a.drop_first();
        assert forall|i: int| 0 <= i < c.len() implies #[trigger] c[i] != '/' && c[i] != '\\' by {
            assert(c[i] == a[i + 1]);
        }
        a_backslash_keeps_a_slash(c, b, rest);
        let t = c + seq!['\\', '/'] + b + seq!['/'] + rest;
        assert(s.drop_first() =~= t);
        assert(s[0] == a[0]);
        assert(slash_index(s) == 1 + slash_index(t));
        lemma_slash_bound(t);
        let n = slash_index(s);
        assert(s.take(n).drop_first() =~= t.take(n - 1));
        assert(s.take(n)[0] == a[0]);
        assert(unslashed(s.take(n)) =~= seq![a[0]] + unslashed(t.take(n - 1)));
        assert(seq![a[0]] + (c + seq!['/'] + b) =~= a + seq!['/'] + b);
        if n < s.len() {
            assert(s.skip(n + 1) =~= t.skip(n));
        }
    }
}

proof fn lemma_slash_bound(s: Seq<char>)
    ensures
        0 <= slash_index(s) <= s.len(),
    decreases s.len(),
{
    if s.len() == 0 || s[0] == '/' {
    } else if s[0] == '\\' && s.len() >= 2 {
        lemma_slash_bound(s.skip(2));
    } else {
        lemma_slash_bound(s.drop_first());
    }
}

/// Of the matches of a line that are not empty, `g` replaces all, and without it
/// only the first is replaced.
pub proof fn the_matches_replaced(hits: Seq<(usize, usize, Seq<char>)>)
    ensures
        picked(hits, true) == hits.filter(|h: (usize, usize, Seq<char>)| h.0 < h.1),
        picked(hits, false) == if picked(hits, true).len() > 0 {
            seq![picked(hits, true)[0]]
        } else {
            Seq::empty()
        },
    decreases hits.len(),
{
    reveal(Seq::filter);
    let nonempty = |h: (usize, usize, Seq<char>)| h.0 < h.1;
    if hits.len() > 0 {
        the_matches_replaced(hits.drop_last());
        let before = picked(hits.drop_last(), true);
        assert(hits.filter(nonempty) == if nonempty(hits.last()) {
            hits.drop_last().filter(nonempty).push(hits.last())
        } else {
            hits.drop_last().filter(nonempty)
        });
        if before.len() > 0 {
            assert(picked(hits, true)[0] == before[0]);
        }
        assert(picked(hits, false) =~= if picked(hits, true).len() > 0 {
            seq![picked(hits, true)[0]]
        } else {
            Seq::empty()
        });
    } else {
        assert(picked(hits, true) =~= hits.filter(nonempty));
        assert(picked(hits, false) =~= Seq::empty());
    }
}

/// The matches are replaced from the last to the first, so that none moves
/// before it is replaced.
pub proof fn matches_are_replaced_from_the_last<B: VimBufferMut>(
    w: World,
    hits: Seq<(usize, usize, Seq<char>)>,
    h: (usize, usize, Seq<char>),
)
    ensures
        w.replace_each::<B>(hits.push(h)) == w.edit_replace::<B>(
            h.0 as int,
            h.1 as int,
            h.2,
        ).replace_each::<B>(hits),
        w.replace_each::<B>(Seq::empty()) == w,
{
    assert(hits.push(h).drop_last() =~= hits);
}

/// A substitution with an empty pattern looks for what was searched for last.
/// Flags decide on case; without them the options do.
pub proof fn what_a_substitution_looks_for(w: World, s: Seq<char>)
    ensures
        ({
            let c = change_of(s);
            let job = w.job(c);
            &&& c.pattern.len() > 0 ==> job is Some && job->0.pattern == c.pattern
            &&& c.pattern.len() == 0 ==> match w.vim.search.pattern {
                Some(p) => job is Some && job->0.pattern == p,
                None => job is None,
            }
            &&& job is Some ==> {
                &&& job->0.replacement == c.replacement
                &&& job->0.all == c.all
                &&& c.ignore_case == Some(true) ==> job->0.ignore_case
                &&& c.ignore_case == Some(false) ==> !job->0.ignore_case
                &&& c.ignore_case is None ==> job->0.ignore_case == w.vim.options.ignores_case(
                    job->0.pattern,
                )
            }
        }),
{
}

/// A search ignores case when `ignorecase` is set, unless `smartcase` is too and
/// a capital letter stands in the pattern.
pub proof fn when_case_is_ignored(o: Options, query: Seq<char>, i: int)
    requires
        0 <= i < query.len(),
    ensures
        !o.ignorecase ==> !o.ignores_case(query),
        o.ignorecase && !o.smartcase ==> o.ignores_case(query),
        o.ignorecase && o.smartcase && 'A' <= query[i] <= 'Z' ==> !o.ignores_case(query),
        o.ignorecase && o.smartcase && (forall|k: int|
            0 <= k < query.len() ==> 'a' <= #[trigger] query[k] <= 'z') ==> o.ignores_case(query),
{
}

/// A mark behind a quotation mark is the address of its line; the mark `>`, which
/// lies behind the last character of a selection, that of the line of that
/// character. A range with a mark that is not set is none.
pub proof fn marks_are_addresses(w: World, name: char)
    ensures
        ({
            let here = w.address(seq!['\'', name]);
            match w.vim.marks.resolved(name) {
                Some(o) => {
                    let at = if name == '>' && o > 0 {
                        o - 1
                    } else {
                        o as int
                    };
                    here == Spot::Line(
                        w.doc.line_of(
                            if at <= w.doc.len() {
                                at
                            } else {
                                w.doc.len()
                            },
                        ),
                        2,
                    )
                },
                None => here is Unset && w.range(seq!['\'', name]) is None,
            }
        }),
{
    reveal(World::address);
    reveal(World::range);
    let s = seq!['\'', name];
    assert(s[0] == '\'' && s[1] == name && s.len() == 2);
}

/// The range of a selection goes from the line of the mark `<` to that of `>`.
pub proof fn the_range_of_a_selection(w: World, rest: Seq<char>, lo: usize, end: usize)
    requires
        w.doc.wf(),
        w.vim.marks.resolved('<') == Some(lo),
        w.vim.marks.resolved('>') == Some(end),
        lo < end <= w.doc.len(),
    ensures
        ({
            let r = w.range(seq!['\'', '<', ',', '\'', '>'] + rest);
            &&& r is Some
            &&& r->0.first == w.doc.line_of(lo as int)
            &&& r->0.last == w.doc.line_of(end - 1)
            &&& r->0.used == 5
        }),
{
    reveal(World::address);
    reveal(World::range);
    let s = seq!['\'', '<', ',', '\'', '>'] + rest;
    assert(s[0] == '\'' && s[1] == '<' && s[2] == ',');
    let t = s.skip(3);
    assert(t[0] == '\'' && t[1] == '>');
    lemma_line_order(w.doc, lo as int, end - 1);
}

} // verus!
