//! What the keys of insert mode leave of a text.
use crate::buffer::VimBufferMut;
use crate::cells::{cells, char_fits, chars_in, lemma_cells_concat, width};
use crate::doc::{max, Doc};
use crate::edit_laws::{
    at_work, lemma_begun, lemma_deleted, lemma_inserted, lemma_replaced, same_text, text_replaced,
};
use crate::edits::run_of;
use crate::insert_mode::{indented, overwrite_stop, overwritten_on};
use crate::join_laws::newline_buffer;
use crate::landing_laws::{chars_between, lemma_chars_split, lemma_one_char};
use crate::mode::Mode;
use crate::newline_laws::lemma_newlines_in_lines;
use crate::state::{Vim, World};
use crate::text::{lemma_cells_of_chars, lemma_range_well_formed};
use crate::word::{back_a_word_goes_back, word_start_before};
use vstd::prelude::*;

verus! {

pub proof fn lemma_republished<B: VimBufferMut>(w: World)
    ensures
        same_text(w.republish::<B>(), w),
{
    reveal(Vim::republished);
    reveal(Vim::with_current_highlights);
    reveal(Vim::with_matches);
}

/// Text typed in Insert mode goes in at the cursor, which ends up behind it. No
/// line that it breaks is indented, or autoindent is off.
pub proof fn typed_text_goes_in<B: VimBufferMut>(w: World, text: Seq<char>)
    requires
        newline_buffer::<B>(),
        at_work(w),
        w.vim.mode == Mode::Insert,
        text.len() == 0 || B::takes(text),
        w.doc.len() + cells(text).len() < usize::MAX,
        !w.vim.options.autoindent || w.doc.indent(w.line()) == 0 || !text.contains('\n'),
    ensures
        ({
            let o = w.cursor();
            let after = w.type_text::<B>(text);
            &&& text_replaced(w.doc, after.doc, o, o, text)
            &&& after.cursor() == o + cells(text).len()
            &&& after.vim.mode == Mode::Insert
            &&& after.vim.registers == w.vim.registers
        }),
{
    let o = w.cursor();
    w.doc.lemma_line_of(o);
    w.doc.lemma_line_bounds(w.line());
    reveal(World::type_text);
    lemma_begun(w);
    let b = w.begin_edit();
    lemma_typed::<B>(b, text);
    if text.len() > 0 {
        lemma_inserted::<B>(b, o, text);
        let e = b.edit_insert::<B>(o, text).at(o + cells(text).len());
        lemma_republished::<B>(e);
    } else {
        assert(cells(text) =~= Seq::empty());
        assert(w.doc.cells =~= w.doc.cells.take(o) + cells(text) + w.doc.cells.skip(o));
    }
}

proof fn lemma_typed<B: VimBufferMut>(w: World, text: Seq<char>)
    requires
        w.doc.wf(),
        !w.vim.options.autoindent || w.doc.indent(w.line()) == 0 || !text.contains('\n'),
    ensures
        w.as_typed::<B>(text) == text,
{
    let start = w.doc.line_start(w.line());
    w.doc.lemma_line_of(w.cursor());
    w.doc.lemma_line_bounds(w.line());
    if w.doc.indent(w.line()) == 0 {
        B::piece_exact(w.doc, start, start);
        assert(w.doc.cells.subrange(start, start) =~= Seq::empty());
    }
    if !text.contains('\n') {
        lemma_not_indented(text, w.cursor_indent::<B>());
    }
}

proof fn lemma_not_indented(text: Seq<char>, indent: Seq<char>)
    requires
        !text.contains('\n'),
    ensures
        indented(text, indent) == text,
    decreases text.len(),
{
    if text.len() > 0 {
        assert(text.contains(text.last())) by {
            assert(text[text.len() - 1] == text.last());
        }
        assert(!text.drop_last().contains('\n')) by {
            if text.drop_last().contains('\n') {
                let i = choose|i: int| 0 <= i < text.len() - 1 && text.drop_last()[i] == '\n';
                assert(text[i] == '\n');
            }
        }
        lemma_not_indented(text.drop_last(), indent);
        assert(text.drop_last().push(text.last()) =~= text);
    }
}

/// With autoindent, a newline typed in an indented line is followed by that
/// line's indent.
pub proof fn a_new_line_is_indented<B: VimBufferMut>(w: World)
    requires
        newline_buffer::<B>(),
        at_work(w),
        w.vim.mode == Mode::Insert,
        w.vim.options.autoindent,
        w.doc.indent(w.line()) > 0,
        forall|t: Seq<char>| #[trigger] B::takes(t),
        w.doc.len() + w.doc.indent(w.line()) + 1 < usize::MAX,
    ensures
        ({
            let o = w.cursor();
            let start = w.doc.line_start(w.line());
            let indent = w.doc.slice(start, start + w.doc.indent(w.line()));
            let after = w.type_text::<B>(seq!['\n']);
            &&& text_replaced(w.doc, after.doc, o, o, seq!['\n'] + indent)
            &&& after.cursor() == o + 1 + w.doc.indent(w.line())
        }),
{
    let d = w.doc;
    let o = w.cursor();
    let line = w.line();
    d.lemma_line_of(o);
    d.lemma_line_bounds(line);
    d.lemma_first_non_blank(line);
    reveal(World::type_text);
    lemma_begun(w);
    let b = w.begin_edit();
    let start = d.line_start(line);
    let n = d.indent(line);
    B::piece_exact(d, start, start + n);
    let sub = d.cells.subrange(start, start + n);
    let indent = chars_in(sub);
    lemma_range_well_formed(d.cells, start, start + n);
    lemma_cells_of_chars(sub);
    assert(cells(indent).len() == n);
    assert(indent.len() > 0) by {
        if indent.len() == 0 {
            assert(cells(indent) =~= Seq::empty());
        }
    }
    let nl = seq!['\n'];
    assert(nl.drop_last() =~= Seq::<char>::empty());
    assert(indented(nl.drop_last(), indent) =~= Seq::<char>::empty());
    assert(indented(nl, indent) =~= nl + indent);
    lemma_cells_concat(nl, indent);
    assert(cells(nl.drop_last()) =~= Seq::empty());
    assert(cells(nl).len() == 1);
    lemma_inserted::<B>(b, o, nl + indent);
    let e = b.edit_insert::<B>(o, nl + indent).at(o + 1 + n);
    lemma_republished::<B>(e);
}

/// Outside the insert modes text that is typed goes nowhere.
pub proof fn only_insert_modes_take_text<B: VimBufferMut>(w: World, text: Seq<char>)
    requires
        w.vim.mode != Mode::Insert,
        w.vim.mode != Mode::Replace,
    ensures
        w.type_text::<B>(text) == w,
{
    reveal(World::type_text);
}

/// Backspace in Insert mode deletes the character before the cursor, at the
/// start of a line its newline, and nothing at the beginning of the text.
pub proof fn backspace_deletes_before<B: VimBufferMut>(w: World) -> (p: int)
    requires
        newline_buffer::<B>(),
        at_work(w),
        w.vim.mode == Mode::Insert,
    ensures
        ({
            let o = w.cursor();
            let after = w.backspace::<B>();
            &&& o > 0 ==> {
                &&& 0 <= p < o
                &&& w.doc.char_at(p) is Some
                &&& p + width(w.doc.char_at(p)->0) == o
                &&& text_replaced(w.doc, after.doc, p, o, Seq::empty())
                &&& after.cursor() == p
            }
            &&& o == 0 ==> after.doc == w.doc && after.cursor() == 0
            &&& after.vim.registers == w.vim.registers
            &&& after.vim.mode == Mode::Insert
        }),
{
    let d = w.doc;
    let o = w.cursor();
    let line = w.line();
    d.lemma_line_of(o);
    d.lemma_line_bounds(line);
    reveal(World::backspace);
    reveal(World::cut);
    lemma_begun(w);
    if o > 0 {
        d.lemma_prev(o);
        let p = d.prev(o)->0;
        if o == d.line_start(line) {
            lemma_newlines_in_lines(d, line - 1);
            d.lemma_line_bounds(line - 1);
            assert(d.cells[o - 1] == Some('\n'));
            assert(width('\n') == 1);
            assert(p == o - 1) by {
                if p < o - 1 {
                    assert(char_fits(d.cells, p));
                }
            }
        }
        lemma_deleted::<B>(w.begin_edit(), p, o);
        p
    } else {
        0
    }
}

/// `<Del>` deletes the character at the cursor, the newline at the end of a
/// line.
pub proof fn delete_deletes_at<B: VimBufferMut>(w: World)
    requires
        newline_buffer::<B>(),
        at_work(w),
    ensures
        ({
            let o = w.cursor();
            let after = w.delete_ahead::<B>();
            &&& o < w.doc.len() ==> text_replaced(
                w.doc,
                after.doc,
                o,
                o + width(w.doc.char_at(o)->0),
                Seq::empty(),
            )
            &&& o == w.doc.len() ==> after.doc == w.doc
            &&& after.cursor() == o
        }),
{
    let o = w.cursor();
    w.doc.lemma_char_fits(o);
    reveal(World::delete_ahead);
    lemma_begun(w);
    if o < w.doc.len() {
        lemma_deleted::<B>(w.begin_edit(), o, o + width(w.doc.char_at(o)->0));
    }
}

/// `<C-u>` deletes everything before the cursor on its line.
pub proof fn control_u_clears_the_line_before<B: VimBufferMut>(w: World)
    requires
        newline_buffer::<B>(),
        at_work(w),
    ensures
        ({
            let from = w.doc.line_start(w.line());
            let after = w.cut_line_before::<B>();
            &&& text_replaced(w.doc, after.doc, from, w.cursor(), Seq::empty())
            &&& after.cursor() == from
        }),
{
    let o = w.cursor();
    let from = w.doc.line_start(w.line());
    w.doc.lemma_line_of(o);
    w.doc.lemma_line_bounds(w.line());
    reveal(World::cut);
    lemma_begun(w);
    lemma_deleted::<B>(w.begin_edit(), from, o);
    if from == o {
        assert(cells(Seq::<char>::empty()) =~= Seq::empty());
        assert(w.doc.cells =~= w.doc.cells.take(from) + cells(Seq::empty()) + w.doc.cells.skip(o));
    }
}

/// With expandtab, Tab types spaces up to the next multiple of the tab stop,
/// one at least; without, a tab.
pub proof fn tab_reaches_the_next_stop<B: VimBufferMut>(w: World)
    requires
        newline_buffer::<B>(),
        at_work(w),
        w.vim.mode == Mode::Insert,
        forall|t: Seq<char>| #[trigger] B::takes(t),
        w.doc.len() + w.vim.options.tabstop + 1 < usize::MAX,
    ensures
        ({
            let o = w.cursor();
            let after = w.tab::<B>();
            let stop = if w.vim.options.tabstop == 0 {
                1
            } else {
                w.vim.options.tabstop as int
            };
            let column = o - w.doc.line_start(w.line());
            let n = after.cursor() - o;
            &&& w.vim.options.expandtab ==> {
                &&& 1 <= n <= stop
                &&& (column + n) % stop == 0
                &&& text_replaced(w.doc, after.doc, o, o, Seq::new(n as nat, |i: int| ' '))
            }
            &&& !w.vim.options.expandtab ==> text_replaced(w.doc, after.doc, o, o, seq!['\t']) && n
                == 1
        }),
{
    let o = w.cursor();
    let d = w.doc;
    d.lemma_line_of(o);
    d.lemma_line_bounds(w.line());
    reveal_strlit("\t");
    if w.vim.options.expandtab {
        let stop = max(w.vim.options.tabstop as int, 1);
        let column = o - d.line_start(w.line());
        let n = stop - column % stop;
        assert(1 <= n <= stop) by (nonlinear_arith)
            requires
                stop >= 1,
                n == stop - column % stop,
                column >= 0,
        ;
        assert((column + n) % stop == 0) by {
            vstd::arithmetic::div_mod::lemma_fundamental_div_mod(column, stop);
            let q = column / stop;
            assert(column + n == stop * q + stop);
            assert(stop * q + stop == stop * (q + 1)) by (nonlinear_arith);
            vstd::arithmetic::div_mod::lemma_mod_multiples_basic(q + 1, stop);
            assert((q + 1) * stop == stop * (q + 1)) by (nonlinear_arith);
        }
        let text = run_of(' ', n);
        assert(text =~= Seq::new(n as nat, |i: int| ' '));
        lemma_spaces(n);
        assert(!text.contains('\n'));
        typed_text_goes_in::<B>(w, text);
    } else {
        let text = "\t"@;
        assert(text =~= seq!['\t']);
        assert(!text.contains('\n'));
        assert(text.drop_last() =~= Seq::<char>::empty());
        assert(cells(text.drop_last()) =~= Seq::empty());
        assert(cells(text).len() == 1);
        typed_text_goes_in::<B>(w, text);
    }
}

proof fn lemma_spaces(n: int)
    requires
        n >= 0,
    ensures
        cells(run_of(' ', n)).len() == n,
    decreases n,
{
    if n > 0 {
        lemma_spaces(n - 1);
        assert(run_of(' ', n).drop_last() =~= run_of(' ', n - 1));
    }
}

// ---- replacing ---------------------------------------------------------------------------

proof fn lemma_overwrite_stop(d: Doc, o: int, end: int, n: int)
    requires
        d.wf(),
        d.is_range(o, end),
        n >= 0,
    ensures
        ({
            let stop = overwrite_stop(d, o, end, n);
            &&& o <= stop <= end
            &&& d.at_boundary(stop)
            &&& chars_between(d, o, stop) <= n
            &&& stop < end ==> chars_between(d, o, stop) == n
        }),
    decreases n,
{
    if n > 0 && o < end {
        d.lemma_char_fits(o);
        let next = o + width(d.char_at(o)->0);
        assert(next <= end) by {
            if next > end {
                assert(char_fits(d.cells, o));
                assert(d.cells[end] is None);
            }
        }
        lemma_one_char(d, o);
        lemma_overwrite_stop(d, next, end, n - 1);
        lemma_chars_split(d, o, next, overwrite_stop(d, next, end, n - 1));
    }
}

/// Text typed in Replace mode takes the place of as many characters of the line
/// as it has, as far as the line goes; the cursor ends up behind it.
pub proof fn replace_mode_types_over<B: VimBufferMut>(w: World, text: Seq<char>) -> (stop: int)
    requires
        newline_buffer::<B>(),
        at_work(w),
        w.vim.mode == Mode::Replace,
        text.len() > 0,
        B::takes(text),
        !text.contains('\n'),
        w.doc.len() + cells(text).len() < usize::MAX,
    ensures
        ({
            let o = w.cursor();
            let end = w.doc.line_end(w.line());
            let after = w.type_text::<B>(text);
            &&& o <= stop <= end
            &&& chars_between(w.doc, o, stop) <= text.len()
            &&& stop < end ==> chars_between(w.doc, o, stop) == text.len()
            &&& text_replaced(w.doc, after.doc, o, stop, text)
            &&& after.cursor() == o + cells(text).len()
            &&& after.vim.mode == Mode::Replace
        }),
{
    let d = w.doc;
    let o = w.cursor();
    let line = w.line();
    let end = d.line_end(line);
    d.lemma_line_of(o);
    d.lemma_line_bounds(line);
    reveal(World::type_text);
    reveal(World::overwrite);
    lemma_begun(w);
    let b = w.begin_edit();
    lemma_typed::<B>(b, text);
    let n = text.len() as int;
    lemma_overwrite_stop(d, o, end, n);
    let stop = overwrite_stop(d, o, end, n);
    let u = World {
        vim: Vim {
            overwritten: b.vim.overwritten + overwritten_on(d, o, end, n),
            ..b.vim
        },
        ..b
    };
    lemma_replaced::<B>(u, o, stop, text);
    lemma_republished::<B>(u.edit_replace::<B>(o, stop, text).at(o + cells(text).len()));
    stop
}

/// Backspace in Replace mode takes back the last character typed: what it took
/// the place of comes back.
pub proof fn backspace_brings_back<B: VimBufferMut>(w: World, c: char) -> (p: int)
    requires
        newline_buffer::<B>(),
        at_work(w),
        w.vim.mode == Mode::Replace,
        w.cursor() > 0,
        w.vim.overwritten.len() > 0,
        w.vim.overwritten.last() == Some(c),
        B::takes(seq![c]),
        w.doc.len() + 4 < usize::MAX,
    ensures
        ({
            let o = w.cursor();
            let after = w.backspace::<B>();
            &&& 0 <= p < o
            &&& w.doc.char_at(p) is Some
            &&& p + width(w.doc.char_at(p)->0) == o
            &&& text_replaced(w.doc, after.doc, p, o, seq![c])
            &&& after.cursor() == p
            &&& after.vim.overwritten == w.vim.overwritten.drop_last()
        }),
{
    let o = w.cursor();
    w.doc.lemma_prev(o);
    let p = w.doc.prev(o)->0;
    reveal(World::backspace);
    let u = World {
        vim: Vim { overwritten: w.vim.overwritten.drop_last(), ..w.vim },
        ..w
    };
    lemma_begun(u);
    let s = seq![c];
    assert(s.drop_last() =~= Seq::<char>::empty());
    assert(cells(s.drop_last()) =~= Seq::empty());
    assert(cells(s).len() == width(c));
    lemma_replaced::<B>(u.begin_edit(), p, o, s);
    reveal(World::begin_edit);
    reveal(World::edit_replace);
    p
}

// ---- leaving -----------------------------------------------------------------------------

/// `<Esc>` in an insert mode goes back to Normal mode, one character to the left
/// unless the cursor is at the start of its line. The text stays where no block
/// is being inserted.
pub proof fn escape_steps_back<B: VimBufferMut>(w: World)
    requires
        w.doc.wf(),
        w.doc.at_boundary(w.cursor()),
        w.cursor() <= w.doc.len(),
        w.vim.block_insert is None,
    ensures
        ({
            let o = w.cursor();
            let from = w.doc.line_start(w.line());
            let after = w.exit_insert::<B>();
            &&& after.vim.mode == Mode::Normal
            &&& after.doc == w.doc
            &&& o > from ==> after.cursor() < o && w.doc.char_at(after.cursor()) is Some
                && after.cursor() + width(w.doc.char_at(after.cursor())->0) == o
            &&& o == from ==> after.cursor() == o
            &&& after.vim.insert_session is None
            &&& after.vim.open_undo is None
            &&& after.vim.marks.last_insert_exit == Some(after.vim.cursor.offset)
        }),
{
    let o = w.cursor();
    let line = w.line();
    let from = w.doc.line_start(line);
    w.doc.lemma_line_of(o);
    w.doc.lemma_line_bounds(line);
    if o > from {
        w.doc.lemma_prev(o);
        let p = w.doc.prev(o)->0;
        if p < from {
            assert(char_fits(w.doc.cells, p));
            assert(w.doc.cells[from] is None);
        }
    }
    reveal(World::exit_insert);
    reveal(World::replicate_block);
    reveal(Vim::commit_record);
    reveal(Vim::republished);
    reveal(Vim::with_current_highlights);
    reveal(Vim::with_matches);
}

/// `<C-w>` deletes back to where `b` goes, but nothing of another line.
pub proof fn control_w_deletes_a_word<B: VimBufferMut>(w: World)
    requires
        newline_buffer::<B>(),
        at_work(w),
    ensures
        ({
            let o = w.cursor();
            let from = w.doc.line_start(w.line());
            let back = word_start_before(w.doc, o, false);
            let start = if back >= from {
                back
            } else {
                from
            };
            let after = w.cut_word_before::<B>();
            &&& text_replaced(w.doc, after.doc, start, o, Seq::empty())
            &&& after.cursor() == start
        }),
{
    let d = w.doc;
    let o = w.cursor();
    let from = d.line_start(w.line());
    d.lemma_line_of(o);
    d.lemma_line_bounds(w.line());
    back_a_word_goes_back(d, o, false);
    let back = word_start_before(d, o, false);
    let start = if back >= from {
        back
    } else {
        from
    };
    reveal(World::cut);
    lemma_begun(w);
    lemma_deleted::<B>(w.begin_edit(), start, o);
    if start == o {
        assert(cells(Seq::<char>::empty()) =~= Seq::empty());
        assert(d.cells =~= d.cells.take(start) + cells(Seq::empty()) + d.cells.skip(o));
    }
}

} // verus!
