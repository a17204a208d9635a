//! What the commands come to: which edit, which span and which place.
use crate::buffer::VimBufferMut;
use crate::cells::cells;
use crate::doc::{max, Doc};
use crate::edit_laws::{
    held, in_use, lemma_begun, lemma_bumped, lemma_delete_span, lemma_inserted, same_text,
    text_replaced,
};
use crate::edits::repeated;
use crate::host::{Env, HostCall, ScrollAnchor};
use crate::join_laws::{newline_buffer, on_lines};
use crate::key::{char_stroke, named_stroke};
use crate::landing_laws::{in_column, in_text, lemma_in_column, the_column_kept};
use crate::mode::{Mode, VisualKind};
use crate::motions::{landing, searched, Motion, MotionKind};
use crate::movement::lemma_goes_to_line;
use crate::newline_laws::lemma_newlines_in_lines;
use crate::normal::Reply;
use crate::ops::{OpSpan, Operator};
use crate::registers::{RegisterKind, Slot};
use crate::replay::{copies, keys_of, texts_in};
use crate::state::{InsertKind, KeyResult, Step, Vim, World};
use crate::tables::NormalCmd;
use crate::text::newline_doc;
use vstd::prelude::*;

verus! {

// ---- Normal mode -------------------------------------------------------------------------

/// `J` and `gJ` join as many lines as the count says, with a space between them
/// and without.
pub proof fn join_commands<B: VimBufferMut>(w: World, env: Env, replies: Seq<Reply>)
    ensures
        ({
            let b = w.without_count().begin_edit();
            let count = w.vim.total_count();
            &&& same_text(b, w)
            &&& w.normal_cmd::<B>(env, NormalCmd::Join, replies).doc == b.join_lines::<B>(
                count,
                false,
            ).doc
            &&& w.normal_cmd::<B>(env, NormalCmd::JoinLiteral, replies).doc == b.join_lines::<B>(
                count,
                true,
            ).doc
        }),
{
    reveal(World::normal_cmd);
    reveal(World::edit_command);
    reveal(World::edit_of);
    lemma_begun(w);
    let b = w.without_count().begin_edit();
    let x = b.join_lines::<B>(w.vim.total_count(), false);
    let y = b.join_lines::<B>(w.vim.total_count(), true);
    lemma_begun(x);
    lemma_begun(y);
    lemma_bumped::<B>(x.end_edit());
    lemma_bumped::<B>(y.end_edit());
}

/// `Y` yanks as many whole lines as the count says, and leaves text and cursor
/// as they are.
pub proof fn y_yanks_lines<B: VimBufferMut>(w: World, env: Env, replies: Seq<Reply>)
    requires
        w.doc.wf(),
        w.vim.total_count() >= 1,
    ensures
        ({
            let d = w.doc;
            let line = w.line();
            let count = w.vim.total_count();
            let last = if line + count <= d.line_count() {
                line + count - 1
            } else {
                d.line_count() - 1
            };
            let after = w.normal_cmd::<B>(env, NormalCmd::YankLine, replies);
            &&& after.doc == d
            &&& after.vim.cursor == w.vim.cursor
            &&& after.vim.registers == w.vim.registers.yanked(
                w.vim.register,
                (Slot {
                    text: d.slice(d.line_start(line), d.line_stop(last)),
                    kind: RegisterKind::Linewise,
                }),
            )
        }),
{
    let d = w.doc;
    let line = w.line();
    let count = w.vim.total_count();
    let last = if line + count <= d.line_count() {
        line + count - 1
    } else {
        d.line_count() - 1
    };
    d.lemma_line_of(w.cursor());
    d.lemma_line_bounds(line);
    d.lemma_line_bounds(last);
    if line < last {
        assert(d.starts[line] < d.starts[last]);
    }
    B::piece_exact(d, d.line_start(line), d.line_stop(last));
    reveal(World::normal_cmd);
    reveal(World::yank_lines);
    reveal(World::yank_span);
    reveal(World::copy_out);
}

/// `zz`, `zt` and `zb` ask for the cursor's line in the middle, at the top and at
/// the bottom of the view.
pub proof fn the_view_is_placed<B: VimBufferMut>(w: World, env: Env, replies: Seq<Reply>)
    ensures
        ({
            let told = |cmd: NormalCmd| w.normal_cmd::<B>(env, cmd, replies).vim.told;
            &&& told(NormalCmd::ScrollCenter) == w.vim.told.push(
                HostCall::ScrollAnchored(w.line(), ScrollAnchor::Center),
            )
            &&& told(NormalCmd::ScrollTop) == w.vim.told.push(
                HostCall::ScrollAnchored(w.line(), ScrollAnchor::Top),
            )
            &&& told(NormalCmd::ScrollBottom) == w.vim.told.push(
                HostCall::ScrollAnchored(w.line(), ScrollAnchor::Bottom),
            )
            &&& w.normal_cmd::<B>(env, NormalCmd::ScrollCenter, replies).doc == w.doc
        }),
{
    reveal(World::normal_cmd);
}

/// `<C-e>` moves the view `count` lines down and `<C-y>` as many up, as far as
/// there are lines; the cursor stays.
pub proof fn the_view_is_moved<B: VimBufferMut>(w: World, env: Env, replies: Seq<Reply>)
    requires
        w.doc.wf(),
        w.vim.total_count() >= 1,
        env.seen.0 < w.doc.line_count(),
    ensures
        ({
            let count = w.vim.total_count();
            let first = env.seen.0 as int;
            let down = w.normal_cmd::<B>(env, NormalCmd::ScrollLineDown, replies);
            let up = w.normal_cmd::<B>(env, NormalCmd::ScrollLineUp, replies);
            let n = w.vim.told.len() as int;
            &&& down.vim.cursor == w.vim.cursor && up.vim.cursor == w.vim.cursor
            &&& down.vim.told[n] == HostCall::ScrollAnchored(
                if first + count < w.doc.line_count() {
                    first + count
                } else {
                    w.doc.line_count() - 1
                },
                ScrollAnchor::Top,
            )
            &&& up.vim.told[n] == HostCall::ScrollAnchored(
                if count <= first {
                    first - count
                } else {
                    0
                },
                ScrollAnchor::Top,
            )
        }),
{
    reveal(World::normal_cmd);
    reveal(World::scroll_lines);
}

/// `ZZ` saves the text and closes, `ZQ` only closes.
pub proof fn saving_and_closing<B: VimBufferMut>(w: World, env: Env, replies: Seq<Reply>)
    ensures
        w.normal_cmd::<B>(env, NormalCmd::WriteQuit, replies).vim.told == w.vim.told.push(
            HostCall::Save(w.doc),
        ).push(HostCall::Close(true)),
        w.normal_cmd::<B>(env, NormalCmd::QuitNoSave, replies).vim.told == w.vim.told.push(
            HostCall::Close(true),
        ),
{
    reveal(World::normal_cmd);
}

/// `gv` selects again what was selected last: from its first character to its
/// last, in its kind.
pub proof fn gv_selects_again<B: VimBufferMut>(
    w: World,
    env: Env,
    replies: Seq<Reply>,
    lo: usize,
    end: usize,
    kind: VisualKind,
)
    requires
        w.vim.last_visual == Some((lo, end, kind)),
        lo < end <= w.doc.len() <= usize::MAX,
    ensures
        ({
            let after = w.normal_cmd::<B>(env, NormalCmd::RestoreVisual, replies);
            &&& after.vim.mode == (Mode::Visual { kind })
            &&& after.vim.visual_anchor == Some(lo)
            &&& after.cursor() == end - 1
            &&& after.doc == w.doc
        }),
{
    reveal(World::normal_cmd);
}

// ---- motions -----------------------------------------------------------------------------

/// A motion that can be made puts the cursor where it lands: a linewise one that
/// keeps no column on the first non-blank of the line, another one that keeps
/// none where it landed. The text stays.
pub proof fn a_motion_moves_the_cursor<B: VimBufferMut>(
    w: World,
    seen: (usize, usize),
    m: Motion,
    count: int,
)
    requires
        w.doc.wf(),
        landing::<B>(w.vim, w.doc, seen, m, count).moved,
        landing::<B>(w.vim, w.doc, seen, m, count).offset <= w.doc.len(),
        !m.keeps_column(),
        !(m is SearchNext),
        !(m is StarSearch),
    ensures
        ({
            let r = landing::<B>(w.vim, w.doc, seen, m, count);
            let after = w.go::<B>(seen, m, count);
            let line = w.doc.line_of(r.offset as int);
            &&& after.doc == w.doc
            &&& r.kind == MotionKind::Linewise ==> after.cursor() == w.doc.first_non_blank(line)
            &&& r.kind != MotionKind::Linewise && r.offset <= w.doc.line_end(line)
                ==> after.cursor() == r.offset
        }),
{
    let r = landing::<B>(w.vim, w.doc, seen, m, count);
    reveal(World::go);
    reveal(World::land);
    reveal(World::landed);
    reveal(Vim::record_jump);
    reveal(searched);
    w.doc.lemma_clamp(r.offset as int);
    let line = w.doc.line_of(r.offset as int);
    w.doc.lemma_line_of(r.offset as int);
    w.doc.lemma_first_non_blank(line);
    w.doc.lemma_line_bounds(line);
}

// ---- Visual mode -------------------------------------------------------------------------

/// An operator on a selection by characters or lines is applied to what the
/// selection covers.
pub proof fn an_operator_takes_the_selection<B: VimBufferMut>(w: World, op: Operator, s: OpSpan)
    requires
        w.vim.mode == (Mode::Visual { kind: VisualKind::Char }) || w.vim.mode == (Mode::Visual {
            kind: VisualKind::Line,
        }),
        w.vim.selected_span(w.doc) == Some(s),
    ensures
        ({
            let b = w.with_vim(Vim { recording_blocked: true, ..w.vim }).begin_edit();
            let after = w.operate_visual::<B>(op);
            let applied = b.apply::<B>(op, s, w.vim.register);
            &&& same_text(b, w)
            &&& after.doc == applied.doc
            &&& after.vim.registers == applied.vim.registers
        }),
{
    reveal(World::operate_visual);
    reveal(World::finish_visual_op);
    reveal(Vim::drop_selection);
    reveal(Vim::selected_span);
    let u = w.with_vim(Vim { recording_blocked: true, ..w.vim });
    lemma_begun(u);
    let b = u.begin_edit();
    let a = b.apply::<B>(op, s, b.vim.register);
    lemma_bumped::<B>(a.close_edit());
}

/// `p` on a selection by characters puts the register's text in its place, and
/// the text that was selected into the register.
pub proof fn put_takes_the_place_of_the_selection<B: VimBufferMut>(w: World, env: Env, s: OpSpan)
    requires
        newline_buffer::<B>(),
        on_lines(w),
        w.vim.mode == (Mode::Visual { kind: VisualKind::Char }),
        w.vim.selected_span(w.doc) == Some(s),
        !s.linewise,
        s.start < s.end,
        w.doc.is_range(s.start as int, s.end as int),
        in_use(w, env) matches Some(slot) && slot.kind != RegisterKind::Linewise,
        w.vim.total_count() >= 1,
        ({
            let text = repeated(in_use(w, env)->0.text, w.vim.total_count());
            (text.len() == 0 || B::takes(text)) && w.doc.len() + cells(text).len() < usize::MAX
        }),
        s.start <= line_end_without(w.doc, s),
    ensures
        ({
            let text = repeated(in_use(w, env)->0.text, w.vim.total_count());
            let after = w.put_over::<B>(env);
            &&& text_replaced(w.doc, after.doc, s.start as int, s.end as int, text)
            &&& after.vim.registers == w.vim.registers.deleted(w.vim.register, held(w.doc, s))
        }),
{
    let slot = in_use(w, env)->0;
    let text = repeated(slot.text, w.vim.total_count());
    lemma_begun(w);
    let b = w.begin_edit();
    lemma_delete_span::<B>(b, s, b.vim.register);
    lemma_counts_kept::<B>(w, s);
    let e = b.delete_span::<B>(s, b.vim.register);
    let at = s.start as int;
    assert(cells(Seq::<char>::empty()) =~= Seq::empty());
    let cut = w.doc.cells.take(at) + w.doc.cells.skip(s.end as int);
    assert(e.doc.cells =~= cut);
    assert(e.doc.at_boundary(at)) by {
        if at < e.doc.len() {
            assert(e.doc.cells[at] == w.doc.cells[s.end as int]);
        }
    }
    e.doc.lemma_line_of(at);
    e.doc.lemma_clamp(at);
    assert(e.doc == newline_doc(cut));
    assert(e.cursor() == at);
    lemma_stashed::<B>(e, slot, at);
    let p = e.put_stashed::<B>(Some(slot));
    assert(p.doc.cells =~= w.doc.cells.take(at) + cells(text) + w.doc.cells.skip(s.end as int));
    lemma_edit_ends::<B>(p);
    reveal(World::put_over);
}

proof fn lemma_counts_kept<B: VimBufferMut>(w: World, s: OpSpan)
    ensures
        w.begin_edit().delete_span::<B>(s, w.begin_edit().vim.register).vim.total_count()
            == w.vim.total_count(),
{
    reveal(World::begin_edit);
    reveal(World::delete_span);
    reveal(World::edit_delete);
    reveal(World::copy_out);
}

proof fn lemma_stashed<B: VimBufferMut>(e: World, slot: Slot, at: int)
    requires
        newline_buffer::<B>(),
        on_lines(e),
        e.cursor() == at,
        e.doc.at_boundary(at),
        slot.kind != RegisterKind::Linewise,
        e.vim.total_count() >= 1,
        ({
            let text = repeated(slot.text, e.vim.total_count());
            (text.len() == 0 || B::takes(text)) && e.doc.len() + cells(text).len() < usize::MAX
        }),
    ensures
        ({
            let after = e.put_stashed::<B>(Some(slot));
            let text = repeated(slot.text, e.vim.total_count());
            &&& text_replaced(e.doc, after.doc, at, at, text)
            &&& after.vim.registers == e.vim.registers
        }),
{
    reveal(World::put_stashed);
    reveal(World::put_in_place);
    lemma_begun(e);
    let u = e.without_count();
    lemma_inserted::<B>(u, at, repeated(slot.text, e.vim.total_count()));
}

proof fn lemma_edit_ends<B: VimBufferMut>(w: World)
    ensures
        w.end_visual_edit::<B>().doc == w.doc,
        w.end_visual_edit::<B>().vim.registers == w.vim.registers,
{
    reveal(World::end_visual_edit);
    reveal(World::finish_visual_op);
    reveal(Vim::drop_selection);
    lemma_begun(w);
    lemma_bumped::<B>(w.end_edit());
}

/// Where the line of a span's start ends once the span is gone.
pub open spec fn line_end_without(d: Doc, s: OpSpan) -> int {
    let e = newline_doc(d.cells.take(s.start as int) + d.cells.skip(s.end as int));
    e.line_end(e.line_of(s.start as int))
}

/// `J` on a selection joins its lines, or more where the count says so.
pub proof fn selected_lines_are_joined<B: VimBufferMut>(w: World, s: OpSpan, literal: bool)
    requires
        w.vim.selected_span(w.doc) == Some(s),
        s.start < s.end <= w.doc.len(),
        w.doc.wf(),
    ensures
        ({
            let lines = w.doc.line_of(s.end - 1) - w.doc.line_of(s.start as int) + 1;
            let count = w.vim.total_count();
            let b = w.without_count().begin_edit().at(s.start as int);
            &&& b.doc == w.doc && b.cursor() == s.start
            &&& w.join_selected::<B>(literal).doc == b.join_lines::<B>(
                if count > lines {
                    count
                } else {
                    lines
                },
                literal,
            ).doc
        }),
{
    reveal(World::join_selected);
    reveal(World::end_visual_edit);
    reveal(World::finish_visual_op);
    reveal(Vim::drop_selection);
    lemma_begun(w);
    let lines = w.doc.line_of(s.end - 1) - w.doc.line_of(s.start as int) + 1;
    let b = w.without_count().begin_edit().at(s.start as int);
    let j = b.join_lines::<B>(max(lines, w.vim.total_count()), literal);
    lemma_begun(j);
    lemma_bumped::<B>(j.end_edit());
}

// ---- insert modes ------------------------------------------------------------------------

/// Enter types a newline; Backspace, Tab and Delete do what they are for; Home and
/// End go to the ends of the line, and the arrow keys move.
pub proof fn the_named_keys_of_insert_mode<B: VimBufferMut>(w: World, env: Env)
    requires
        !w.vim.insert_register_pending,
    ensures
        ({
            let key = |name: Seq<char>| w.insert_key::<B>(env, named_stroke(name));
            &&& key("enter"@) == (w.type_text::<B>(seq!['\n']), KeyResult::Consumed)
            &&& key("backspace"@) == (w.backspace::<B>(), KeyResult::Consumed)
            &&& key("tab"@) == (w.tab::<B>(), KeyResult::Consumed)
            &&& key("delete"@) == (w.delete_ahead::<B>(), KeyResult::Consumed)
            &&& key("home"@) == (w.at(w.doc.line_start(w.line())), KeyResult::Consumed)
            &&& key("end"@) == (w.at(w.doc.line_end(w.line())), KeyResult::Consumed)
            &&& key("left"@) == (w.go::<B>(env.seen, Motion::Left, 1), KeyResult::Consumed)
            &&& key("right"@) == (w.go::<B>(env.seen, Motion::Right, 1), KeyResult::Consumed)
            &&& key("up"@) == (w.go::<B>(env.seen, Motion::Up, 1), KeyResult::Consumed)
            &&& key("down"@) == (w.go::<B>(env.seen, Motion::Down, 1), KeyResult::Consumed)
            &&& key("escape"@) == (w.exit_insert::<B>(), KeyResult::Consumed)
        }),
{
    reveal(World::insert_key);
    reveal(World::insert_named);
    reveal_strlit("enter");
    reveal_strlit("backspace");
    reveal_strlit("tab");
    reveal_strlit("delete");
    reveal_strlit("home");
    reveal_strlit("end");
    reveal_strlit("up");
    reveal_strlit("down");
    reveal_strlit("left");
    reveal_strlit("right");
    reveal_strlit("escape");
    reveal_strlit("\n");
    assert("\n"@ =~= seq!['\n']);
    assert("enter"@.len() == 5 && "enter"@[0] == 'e' && "backspace"@.len() == 9 && "tab"@.len()
        == 3 && "tab"@[0] == 't' && "delete"@.len() == 6 && "delete"@[0] == 'd' && "home"@.len()
        == 4 && "home"@[0] == 'h' && "end"@.len() == 3 && "end"@[0] == 'e' && "up"@.len() == 2
        && "down"@.len() == 4 && "down"@[0] == 'd' && "left"@.len() == 4 && "left"@[0] == 'l'
        && "right"@.len() == 5 && "right"@[0] == 'r' && "escape"@.len() == 6 && "escape"@[0]
        == 'e');
}

/// `<C-r>` waits for the name of a register, and its text is typed then.
pub proof fn a_register_is_typed<B: VimBufferMut>(w: World, env: Env, c: char)
    requires
        w.vim.insert_register_pending,
    ensures
        ({
            let u = w.with_vim(Vim { insert_register_pending: false, ..w.vim });
            let after = w.insert_key::<B>(env, char_stroke(c));
            &&& after.1 == KeyResult::Consumed
            &&& match w.vim.registers.paste_slot(c, env.clip) {
                Some(slot) => after.0 == u.type_text::<B>(slot.text),
                None => after.0 == u,
            }
        }),
{
    reveal(World::insert_key);
    reveal(World::type_register);
}

// ---- repeating ---------------------------------------------------------------------------

/// The keys and the texts that are replayed `n` times over follow what waits
/// already, in their order.
pub proof fn steps_are_replayed(v: Vim, s: Seq<Step>, n: int)
    requires
        n >= 1,
    ensures
        v.replay(s, 1).pending_keys == v.pending_keys + keys_of(s),
        v.replay(s, 1).replay_texts == v.replay_texts + texts_in(s),
        v.replay(s, n + 1).pending_keys == v.replay(s, n).pending_keys + keys_of(s),
        v.replay(s, n).replaying,
{
    reveal(Vim::replay);
    lemma_copies(keys_of(s), n);
    lemma_copies(texts_in(s), n);
    lemma_copies(keys_of(s), 0);
    lemma_copies(texts_in(s), 0);
    assert(v.pending_keys + (copies(keys_of(s), n) + keys_of(s)) =~= v.pending_keys + copies(
        keys_of(s),
        n,
    ) + keys_of(s));
}

proof fn lemma_copies<T>(s: Seq<T>, n: int)
    requires
        n >= 0,
    ensures
        copies(s, n + 1) == copies(s, n) + s,
        copies(s, 0) == Seq::<T>::empty(),
        copies(s, 1) == s,
{
    assert(copies(s, 0) + s =~= s);
}

// ---- substituting --------------------------------------------------------------------------

/// `s` deletes as `x` does and begins to insert; `S` changes the cursor's whole
/// line.
pub proof fn substitutions<B: VimBufferMut>(w: World, env: Env, replies: Seq<Reply>)
    ensures
        ({
            let s = w.normal_cmd::<B>(env, NormalCmd::SubstituteChar, replies);
            let x = w.normal_cmd::<B>(env, NormalCmd::DeleteCharForward, replies);
            let line = w.normal_cmd::<B>(env, NormalCmd::SubstituteLine, replies);
            let b = w.begin_edit();
            let own = OpSpan {
                start: w.doc.line_start(w.line()) as usize,
                end: w.doc.line_stop(w.line()) as usize,
                linewise: true,
            };
            &&& s.doc == x.doc
            &&& s.vim.registers == x.vim.registers
            &&& s.vim.mode == Mode::Insert
            &&& same_text(b, w)
            &&& line.doc == b.apply::<B>(Operator::Change, own, w.vim.register).doc
        }),
{
    reveal(World::normal_cmd);
    reveal(World::edit_command);
    reveal(World::edit_of);
    reveal(World::substitute_chars);
    reveal(World::insert_place);
    reveal(Vim::begin_insert);
    reveal(World::apply_to);
    lemma_begun(w);
    let u = w.without_count().begin_edit();
    let x = u.delete_chars::<B>(w.vim.total_count(), false);
    lemma_begun(x);
    lemma_bumped::<B>(x.end_edit());
    lemma_bumped::<B>(x.start_insert::<B>(InsertKind::Change));
    let b = w.begin_edit();
    let own = OpSpan {
        start: w.doc.line_start(w.line()) as usize,
        end: w.doc.line_stop(w.line()) as usize,
        linewise: true,
    };
    lemma_bumped::<B>(b.apply::<B>(Operator::Change, own, b.vim.register));
}

/// `j` and `k` put the cursor where the line that they go to covers the column
/// that they keep to, and remember that column.
pub proof fn vertical_motions_keep_the_column<B: VimBufferMut>(
    w: World,
    seen: (usize, usize),
    count: int,
    down: bool,
)
    requires
        in_text(w.vim, w.doc),
        w.doc == newline_doc(w.doc.cells),
        count >= 1,
        if down {
            w.line() + count < w.doc.line_count()
        } else {
            count <= w.line()
        },
        w.vim.column(w.doc) <= usize::MAX,
    ensures
        ({
            let m = if down {
                Motion::Down
            } else {
                Motion::Up
            };
            let to = if down {
                w.line() + count
            } else {
                w.line() - count
            };
            let after = w.go::<B>(seen, m, count);
            &&& after.doc == w.doc
            &&& in_column(w.doc, after.cursor(), to, w.vim.column(w.doc))
            &&& after.vim.cursor.desired_col == Some(w.vim.column(w.doc) as usize)
        }),
{
    let m = if down {
        Motion::Down
    } else {
        Motion::Up
    };
    let to = if down {
        w.line() + count
    } else {
        w.line() - count
    };
    w.doc.lemma_line_of(w.cursor());
    the_column_kept(w.vim, w.doc);
    lemma_in_column(w.doc, to, w.vim.column(w.doc));
    if to + 1 < w.doc.line_count() {
        lemma_newlines_in_lines(w.doc, to);
    }
    lemma_goes_to_line::<B>(w, seen, m, count, to);
}

} // verus!
