//! Undo groups over whole commands: one command is one step of undo, and so is
//! everything typed in one insert session.
use crate::buffer::{VimBuffer, VimBufferMut};
use crate::doc::{max, min, Doc};
use crate::drive::{normalized, Moment, Turn, TURN_LIMIT};
use crate::engine::next_number;
use crate::ex::{ex_of, Change, Ex, Job, Lines};
use crate::host::{begun, hears, lemma_begun_concat, told_is_heard, Env, HostCall, VimHost};
use crate::insert_mode::leaves_insert;
use crate::key::{Kind, Stroke};
use crate::keymap::ModeClass;
use crate::motions::Motion;
use crate::normal::Reply;
use crate::ops::{BlockView, OpSpan, Operator};
use crate::registers::Slot;
use crate::replay::text_marker;
use crate::state::{CharArgCmd, InsertKind, Step, Vim, World};
use crate::tables::{class_of_mode, CmdKind, NormalCmd, Phase, VisualCmd};
use vstd::prelude::*;

verus! {

broadcast use crate::host::lemma_begun_push;

/// The undo group that is open, the number of the newest one, and those that
/// the host was told of.
pub open spec fn group_of(w: World) -> (Option<u64>, u64, Seq<u64>) {
    (w.vim.open_undo, w.vim.undo_seq, begun(w.vim.told))
}

/// From `a` to `b` the next undo group was begun, and the host was told of it
/// once.
pub open spec fn one_begun(a: World, b: World) -> bool {
    &&& b.vim.undo_seq == next_number(a.vim.undo_seq)
    &&& begun(b.vim.told) == begun(a.vim.told).push(b.vim.undo_seq)
}

/// From `a` to `b` at most one undo group was begun, and none when one was
/// open already; the host was told of that one and of no other.
pub open spec fn in_one_group(a: World, b: World) -> bool {
    if a.vim.open_undo is Some {
        b.vim.undo_seq == a.vim.undo_seq && begun(b.vim.told) == begun(a.vim.told)
    } else {
        group_of(b) == group_of(a) || one_begun(a, b)
    }
}

/// From `a` to `b` the text did not change outside an undo group, and not at
/// all where it is read-only; every change was counted.
pub open spec fn edited_in_group(a: World, b: World) -> bool {
    &&& a.vim.open_undo is Some || b.doc == a.doc || one_begun(a, b)
    &&& read_only(b) == read_only(a)
    &&& counted(a, b)
}

/// Between `a` and `b` every change of the text was counted, so that what was
/// found in the text before is known to be out of date. The count stops at the
/// largest number.
pub open spec fn counted(a: World, b: World) -> bool {
    let (from, to) = (a.vim.edit_generation, b.vim.edit_generation);
    from <= to && (b.doc == a.doc || from < to || from == u64::MAX)
}

/// The text, where it cannot be edited.
pub open spec fn read_only(w: World) -> Option<Doc> {
    if w.editable {
        None
    } else {
        Some(w.doc)
    }
}

/// What no edit changes: the groups, and a text that is read-only.
spec fn books(w: World) -> (Option<u64>, u64, Seq<u64>, Option<Doc>) {
    (w.vim.open_undo, w.vim.undo_seq, begun(w.vim.told), read_only(w))
}

/// Neither the groups nor the text changed.
spec fn idle_step(a: World, b: World) -> bool {
    step(a, b) && b.doc == a.doc
}

/// Edits that belong to the group that is open: each of them is counted.
spec fn step(a: World, b: World) -> bool {
    books(b) == books(a) && counted(a, b)
}

/// A read-only text stays, and so do the groups while one is open.
spec fn kept(a: World, b: World) -> bool {
    read_only(b) == read_only(a) && (a.vim.open_undo is Some ==> step(a, b))
}

/// With a group begun, unless one was open.
spec fn grouped(a: World, b: World) -> bool {
    if a.vim.open_undo is Some {
        step(a, b)
    } else {
        b.vim.open_undo is Some && one_begun(a, b) && read_only(b) == read_only(a) && counted(a, b)
    }
}

// ---- edits ---------------------------------------------------------------------------------

proof fn lemma_begin_edit(w: World)
    ensures
        grouped(w, w.begin_edit()),
        w.begin_edit().vim.open_undo is Some,
        w.begin_edit().doc == w.doc,
        w.begin_edit().vim.insert_session == w.vim.insert_session,
{
    reveal(World::begin_edit);
}

proof fn lemma_edit<B: VimBufferMut>(w: World, start: int, end: int, text: Seq<char>)
    ensures
        step(w, w.edit_insert::<B>(start, text)),
        step(w, w.edit_delete::<B>(start, end)),
        step(w, w.edit_replace::<B>(start, end, text)),
{
    reveal(World::edit_insert);
    reveal(World::edit_delete);
    reveal(World::edit_replace);
}

proof fn lemma_highlights<B: VimBuffer>(v: Vim, d: Doc)
    ensures
        v.republished::<B>(d).open_undo == v.open_undo,
        v.republished::<B>(d).undo_seq == v.undo_seq,
        begun(v.republished::<B>(d).told) == begun(v.told),
        v.republished::<B>(d).edit_generation == v.edit_generation,
        v.with_fresh_matches::<B>(d).open_undo == v.open_undo,
        v.with_fresh_matches::<B>(d).undo_seq == v.undo_seq,
        begun(v.with_fresh_matches::<B>(d).told) == begun(v.told),
        v.with_fresh_matches::<B>(d).edit_generation == v.edit_generation,
{
    reveal(Vim::republished);
    reveal(Vim::with_current_highlights);
    reveal(Vim::with_matches);
    reveal(Vim::with_fresh_matches);
}

proof fn lemma_bump<B: VimBufferMut>(w: World)
    ensures
        idle_step(w, w.bump::<B>()),
{
    reveal(World::bump);
    reveal(Vim::note_change);
    lemma_highlights::<B>(w.vim.note_change(), w.doc);
}

proof fn lemma_begin_insert(w: World, kind: InsertKind)
    ensures
        grouped(w, w.begin_insert(kind)),
        w.begin_insert(kind).doc == w.doc,
{
    reveal(Vim::begin_insert);
}

proof fn lemma_delete_span<B: VimBufferMut>(w: World, s: OpSpan, register: Option<char>)
    ensures
        step(w, w.delete_span::<B>(s, register)),
{
    reveal(World::delete_span);
    reveal(World::copy_out);
    let slot = w.slot_of_span::<B>(s);
    let c = w.copy_out(register, slot.text);
    let u = c.with_registers(c.vim.registers.deleted(register, slot));
    lemma_edit::<B>(u, s.start as int, s.end as int, Seq::empty());
}

proof fn lemma_shift_lines<B: VimBufferMut>(w: World, i: int, last: int, right: bool)
    ensures
        step(w, w.shift_lines::<B>(i, last, right)),
    decreases last - i + 1,
{
    if i <= last {
        reveal(World::shift_line);
        reveal(World::edit_insert);
        reveal(World::edit_delete);
        lemma_shift_lines::<B>(w.shift_line::<B>(i, right), i + 1, last, right);
    }
}

proof fn lemma_operate<B: VimBufferMut>(w: World, op: Operator, s: OpSpan, register: Option<char>)
    requires
        w.vim.open_undo is Some,
    ensures
        step(w, w.apply::<B>(op, s, register)),
{
    reveal(World::apply);
    reveal(World::operate);
    match op {
        Operator::Delete => {
            lemma_delete_span::<B>(w, s, register);
        },
        Operator::Yank => {
            reveal(World::yank_span);
            reveal(World::copy_out);
        },
        Operator::Change => {
            reveal(World::change_span);
            let indent = w.kept_indent::<B>(s);
            lemma_delete_span::<B>(w, w.change_extent(s), register);
            let u = w.delete_span::<B>(w.change_extent(s), register);
            let at = u.cursor();
            lemma_edit::<B>(u, at, at, indent);
            let i = u.edit_insert::<B>(at, indent).at(crate::edits::behind(at, indent));
            lemma_begin_insert(i, InsertKind::Change);
            lemma_begin_insert(u, InsertKind::Change);
        },
        Operator::IndentLeft | Operator::IndentRight => {
            reveal(World::indent_span);
            let first = w.doc.line_of(s.start as int);
            let last = crate::operators::last_line_of(w.doc, s);
            lemma_shift_lines::<B>(w, first, last, true);
            lemma_shift_lines::<B>(w, first, last, false);
        },
        Operator::Lowercase | Operator::Uppercase | Operator::ToggleCase => {
            reveal(World::recase);
            reveal(World::edit_replace);
            reveal(World::edit_insert);
        },
        Operator::Format => {
            reveal(World::format_span);
            reveal(World::edit_replace);
            reveal(World::edit_insert);
        },
    }
}


proof fn lemma_join<B: VimBufferMut>(w: World, n: int, literal: bool)
    ensures
        step(w, w.join_more::<B>(n, literal)),
    decreases n,
{
    if n > 0 && w.line() + 1 < w.doc.line_count() {
        reveal(World::join_once);
        reveal(World::edit_insert);
        reveal(World::edit_delete);
        reveal(World::edit_replace);
        lemma_join::<B>(w.join_once::<B>(literal), n - 1, literal);
    }
}

proof fn lemma_delete_chars<B: VimBufferMut>(w: World, count: int, flag: bool)
    ensures
        step(w, w.delete_chars::<B>(count, flag)),
{
    reveal(World::delete_chars);
    match crate::operators::chars_span(w.doc, w.cursor(), count, flag) {
        Some(s) => {
            lemma_delete_span::<B>(w, s, None);
        },
        None => {},
    }
}

proof fn lemma_rewrite_chars<B: VimBufferMut>(w: World, c: char, count: int)
    ensures
        step(w, w.toggle_chars::<B>(count)),
        step(w, w.replace_chars::<B>(c, count)),
{
    reveal(World::toggle_chars);
    reveal(World::replace_chars);
    let start = w.cursor();
    let end = w.doc.line_end(w.line());
    let n = max(count, 1);
    lemma_edit::<B>(
        w,
        start,
        crate::operators::chars_on(w.doc, start, end, n),
        crate::operators::toggled_on(w.doc, start, end, n),
    );
    match crate::operators::nth_stop(w.doc, start, end, n) {
        Some(stop) => {
            lemma_edit::<B>(w, start, stop, crate::edits::run_of(c, n));
        },
        None => {},
    }
}

proof fn lemma_put<B: VimBufferMut>(
    w: World,
    clip: Option<Seq<char>>,
    reg: char,
    count: int,
    after: bool,
)
    ensures
        step(w, w.put::<B>(clip, reg, count, after)),
{
    reveal(World::put);
    reveal(World::put_lines);
    reveal(World::put_chars);
    reveal(World::edit_insert);
}

proof fn lemma_simple_edits<B: VimBufferMut>(
    w: World,
    clip: Option<Seq<char>>,
    reg: char,
    c: char,
    count: int,
    flag: bool,
)
    ensures
        step(w, w.delete_chars::<B>(count, flag)),
        step(w, w.toggle_chars::<B>(count)),
        step(w, w.replace_chars::<B>(c, count)),
        step(w, w.put::<B>(clip, reg, count, flag)),
        step(w, w.join_lines::<B>(count, flag)),
{
    lemma_delete_chars::<B>(w, count, flag);
    lemma_rewrite_chars::<B>(w, c, count);
    lemma_put::<B>(w, clip, reg, count, flag);
    reveal(World::join_lines);
    lemma_join::<B>(w, max(count, 2) - 1, flag);
}

// ---- quiet steps ------------------------------------------------------------------------------

proof fn lemma_end_command(w: World)
    ensures
        w.end_command().doc == w.doc,
        w.end_command().vim.undo_seq == w.vim.undo_seq,
        w.end_command().vim.told == w.vim.told,
        w.end_command().vim.edit_generation == w.vim.edit_generation,
        w.end_command().vim.open_undo == w.vim.open_undo || w.end_command().vim.open_undo is None,
        idle_step(w, w.with_vim(w.vim.commit_record())),
{
    reveal(Vim::end_command);
    reveal(Vim::commit_record);
}

proof fn lemma_finish_visual(w: World)
    ensures
        idle_step(w, w.finish_visual_op()),
        idle_step(w, w.exit_visual()),
{
    reveal(World::finish_visual_op);
    reveal(Vim::drop_selection);
    reveal(Vim::exit_visual);
}

proof fn lemma_search<B: VimBuffer>(w: World, m: Motion, count: int)
    ensures
        idle_step(w, w.search::<B>(m, count)),
{
    reveal(crate::motions::searched);
    reveal(Vim::with_word_pattern);
    reveal(Vim::with_pattern);
    lemma_highlights::<B>(w.vim, w.doc);
    match m {
        Motion::StarSearch { forward } => {
            let v = w.vim.with_word_pattern::<B>(w.doc, forward);
            lemma_highlights::<B>(v, w.doc);
        },
        _ => {},
    }
}

proof fn lemma_go<B: VimBuffer>(w: World, seen: (usize, usize), m: Motion, count: int)
    ensures
        idle_step(w, w.go::<B>(seen, m, count)),
{
    reveal(World::go);
    reveal(World::land);
    reveal(Vim::record_jump);
    lemma_search::<B>(w, m, count);
}

// ---- commands ---------------------------------------------------------------------------------

proof fn lemma_complete_operator<B: VimBufferMut>(w: World, s: OpSpan)
    ensures
        in_one_group(w, w.complete_operator::<B>(s)),
        edited_in_group(w, w.complete_operator::<B>(s)),
{
    reveal(World::complete_operator);
    match w.vim.op {
        Some(op) => {
            let a = w.with_vim(Vim { op: None, op_count: None, ..w.vim });
            lemma_begin_edit(a);
            let b = a.begin_edit();
            lemma_operate::<B>(b, op, s, b.vim.register);
            let c = b.apply::<B>(op, s, b.vim.register).close_edit();
            lemma_bump::<B>(c);
            lemma_end_command(c.bump::<B>().reset_pending());
        },
        None => {},
    }
}

proof fn lemma_delete_rows<B: VimBufferMut>(w: World, rows: Seq<(usize, usize)>)
    ensures
        step(w, w.delete_rows::<B>(rows)),
    decreases rows.len(),
{
    if rows.len() > 0 {
        let u = w.edit_delete::<B>(rows.last().0 as int, rows.last().1 as int);
        lemma_edit::<B>(w, rows.last().0 as int, rows.last().1 as int, Seq::empty());
        lemma_delete_rows::<B>(u, rows.drop_last());
    }
}

proof fn lemma_insert_at_each<B: VimBufferMut>(w: World, offsets: Seq<usize>, text: Seq<char>)
    ensures
        step(w, w.insert_at_each::<B>(offsets, text)),
    decreases offsets.len(),
{
    if offsets.len() > 0 {
        lemma_insert_at_each::<B>(w, offsets.drop_last(), text);
        let u = w.insert_at_each::<B>(offsets.drop_last(), text);
        lemma_edit::<B>(u, offsets.last() as int, 0, text);
    }
}

proof fn lemma_replace_rows<B: VimBufferMut>(
    w: World,
    rows: Seq<(usize, usize)>,
    parts: Seq<Seq<char>>,
    n: int,
)
    ensures
        step(w, w.replace_rows::<B>(rows, parts, n)),
    decreases n,
{
    if n > 0 {
        let row = rows[n - 1];
        let text = crate::block::text_for_row(parts, n - 1);
        let d = w.edit_delete::<B>(row.0 as int, row.1 as int);
        lemma_edit::<B>(w, row.0 as int, row.1 as int, text);
        lemma_edit::<B>(d, row.0 as int, row.1 as int, text);
        let u = if row.0 < row.1 {
            d.edit_insert::<B>(row.0 as int, text)
        } else {
            w
        };
        lemma_replace_rows::<B>(u, rows, parts, n - 1);
    }
}

proof fn lemma_operate_block<B: VimBufferMut>(w: World, op: Operator)
    ensures
        in_one_group(w, w.operate_block::<B>(op)),
        edited_in_group(w, w.operate_block::<B>(op)),
{
    reveal(World::operate_block);
    match w.vim.selected_block(w.doc) {
        Some(block) => {
            lemma_begin_edit(w);
            let b = w.begin_edit();
            lemma_delete_rows::<B>(b, block.rows);
            let d = b.delete_rows::<B>(block.rows);
            match op {
                Operator::Delete => {
                    reveal(World::delete_block);
                    let e = d.end_edit();
                    lemma_bump::<B>(e);
                    let f = e.bump::<B>();
                    let g = World { vim: f.vim.reset_pending(), ..f };
                    lemma_finish_visual(
                        g.moved_to(
                            g.doc.clamp(
                                crate::block::first_or_zero(
                                    crate::block::starts_after_delete(block.rows),
                                ),
                            ),
                        ),
                    );
                },
                Operator::Yank => {
                    lemma_yank_block::<B>(w, block);
                },
                Operator::Change => {
                    reveal(World::change_block);
                    lemma_bump::<B>(d);
                    let f = d.bump::<B>();
                    let g = World { vim: f.vim.reset_pending(), ..f };
                    let h = g.at(
                        g.doc.clamp(
                            crate::block::first_or_zero(
                                crate::block::starts_after_delete(block.rows),
                            ),
                        ),
                    );
                    let i = World {
                        vim: Vim {
                            block_insert: Some(crate::block::change_plan(block.rows)),
                            ..h.vim
                        },
                        ..h
                    };
                    lemma_begin_insert(i, InsertKind::Insert);
                },
                _ => {},
            }
        },
        None => {},
    }
}

proof fn lemma_yank_block<B: VimBufferMut>(w: World, block: BlockView)
    ensures
        idle_step(w, w.yank_block::<B>(block)),
{
    reveal(World::yank_block);
    reveal(World::copy_out);
    reveal(World::finish_visual_op);
    reveal(Vim::drop_selection);
}

proof fn lemma_operate_visual<B: VimBufferMut>(w: World, op: Operator)
    ensures
        in_one_group(w, w.operate_visual::<B>(op)),
        edited_in_group(w, w.operate_visual::<B>(op)),
{
    reveal(World::operate_visual);
    let a = w.with_vim(Vim { recording_blocked: true, ..w.vim });
    lemma_operate_block::<B>(a, op);
    match a.vim.selected_span(a.doc) {
        Some(s) => {
            lemma_begin_edit(a);
            let b = a.begin_edit();
            lemma_operate::<B>(b, op, s, b.vim.register);
            let c = b.apply::<B>(op, s, b.vim.register).close_edit();
            lemma_bump::<B>(c);
            lemma_finish_visual(c.bump::<B>().reset_pending());
        },
        None => {},
    }
}

proof fn lemma_insert_block(w: World, append: bool)
    ensures
        in_one_group(w, w.insert_block(append)),
        w.insert_block(append).doc == w.doc,
        read_only(w.insert_block(append)) == read_only(w),
{
    reveal(World::insert_block);
    reveal(Vim::begin_insert);
}

proof fn lemma_start_insert<B: VimBufferMut>(w: World, kind: InsertKind)
    ensures
        grouped(w, w.start_insert::<B>(kind)),
{
    reveal(World::insert_place);
    lemma_begin_insert(w.insert_place::<B>(kind), kind);
    match kind {
        InsertKind::OpenLine { below } => {
            reveal(World::open_line);
            reveal(World::edit_insert);
            lemma_begin_edit(w);
        },
        _ => {},
    }
}

proof fn lemma_end_visual_edit<B: VimBufferMut>(w: World)
    ensures
        w.end_visual_edit::<B>().vim.undo_seq == w.vim.undo_seq,
        begun(w.end_visual_edit::<B>().vim.told) == begun(w.vim.told),
        w.end_visual_edit::<B>().vim.open_undo is None,
        w.vim.edit_generation <= w.end_visual_edit::<B>().vim.edit_generation,
        w.end_visual_edit::<B>().doc == w.doc,
        read_only(w.end_visual_edit::<B>()) == read_only(w),
{
    reveal(World::end_visual_edit);
    lemma_bump::<B>(w.end_edit());
    lemma_finish_visual(w.end_edit().bump::<B>());
}

proof fn lemma_put_over<B: VimBufferMut>(w: World, env: Env)
    ensures
        in_one_group(w, w.put_over::<B>(env)),
        edited_in_group(w, w.put_over::<B>(env)),
{
    reveal(World::put_over);
    lemma_put_over_block::<B>(w, env);
    match w.vim.selected_span(w.doc) {
        Some(s) => {
            let slot = w.vim.registers.paste_slot(w.vim.put_register(), env.clip);
            lemma_begin_edit(w);
            let b = w.begin_edit();
            lemma_delete_span::<B>(b, s, b.vim.register);
            let d = b.delete_span::<B>(s, b.vim.register);
            reveal(World::put_stashed);
            reveal(World::put_in_place);
            reveal(World::edit_insert);
            assert(step(d, d.put_stashed::<B>(slot)));
            lemma_end_visual_edit::<B>(d.put_stashed::<B>(slot));
        },
        None => {},
    }
}

proof fn lemma_put_over_block<B: VimBufferMut>(w: World, env: Env)
    ensures
        in_one_group(w, w.put_over_block::<B>(env)),
        edited_in_group(w, w.put_over_block::<B>(env)),
{
    reveal(World::put_over_block);
    let name = match w.vim.register {
        Some(name) => name,
        None => crate::registers::UNNAMED,
    };
    match (w.vim.selected_block(w.doc), w.vim.registers.paste_slot(name, env.clip)) {
        (Some(block), Some(slot)) => {
            let a = World { vim: Vim { recording_blocked: true, ..w.vim }, ..w };
            lemma_begin_edit(a);
            let b = a.begin_edit();
            lemma_put_over_rows::<B>(b, block.rows, slot);
            let c = b.put_over_rows::<B>(block.rows, slot);
            let e = c.moved_to(c.doc.clamp(crate::block::first_start(block.rows))).end_edit();
            lemma_bump::<B>(e);
            lemma_finish_visual(e.bump::<B>());
        },
        _ => {},
    }
}

proof fn lemma_put_over_rows<B: VimBufferMut>(w: World, rows: Seq<(usize, usize)>, slot: Slot)
    ensures
        step(w, w.put_over_rows::<B>(rows, slot)),
{
    let text = crate::edits::without_newlines(slot.text);
    lemma_replace_rows::<B>(w, rows, crate::strs::split_at(text, '\n'), rows.len() as int);
    lemma_delete_rows::<B>(w, rows);
    lemma_insert_at_each::<B>(
        w.delete_rows::<B>(rows),
        crate::block::starts_after_delete(rows).reverse(),
        text,
    );
}

proof fn lemma_visual_cmd<B: VimBufferMut>(w: World, env: Env, cmd: VisualCmd)
    ensures
        in_one_group(w, w.visual_cmd::<B>(env, cmd)),
        edited_in_group(w, w.visual_cmd::<B>(env, cmd)),
{
    reveal(World::visual_cmd);
    lemma_finish_visual(w);
    match cmd {
        VisualCmd::PutReplace => {
            lemma_put_over::<B>(w, env);
        },
        VisualCmd::Join { literal } => {
            reveal(World::join_selected);
            match w.vim.selected_span(w.doc) {
                Some(s) => {
                    let count = w.vim.total_count();
                    let lines = crate::operators::last_line_of(w.doc, s) - w.doc.line_of(
                        s.start as int,
                    ) + 1;
                    let a = w.without_count();
                    lemma_begin_edit(a);
                    let b = a.begin_edit().at(s.start as int);
                    lemma_simple_edits::<B>(b, None, 'a', 'a', max(lines, count), literal);
                    lemma_end_visual_edit::<B>(b.join_lines::<B>(max(lines, count), literal));
                },
                None => {},
            }
        },
        _ => {},
    }
}

proof fn lemma_edit_command<B: VimBufferMut>(w: World, env: Env, cmd: NormalCmd)
    ensures
        in_one_group(w, w.edit_command::<B>(env, cmd)),
        edited_in_group(w, w.edit_command::<B>(env, cmd)),
{
    reveal(World::edit_command);
    reveal(World::edit_of);
    let count = w.vim.total_count();
    let a = w.without_count();
    lemma_begin_edit(a);
    let b = a.begin_edit();
    let reg = b.vim.put_register();
    lemma_simple_edits::<B>(b, env.clip, reg, 'a', count, true);
    lemma_simple_edits::<B>(b, env.clip, reg, 'a', count, false);
    match cmd {
        NormalCmd::LinewiseOp(op) => {
            lemma_operate::<B>(b, op, b.counted_lines(count), b.vim.register);
        },
        _ => {},
    }
    let c = b.edit_of::<B>(env, cmd, count);
    assert(step(b, c));
    lemma_bump::<B>(c.end_edit());
}

proof fn lemma_apply_to<B: VimBufferMut>(w: World, op: Operator, s: OpSpan)
    ensures
        grouped(w, w.apply_to::<B>(op, s)),
{
    reveal(World::apply_to);
    lemma_begin_edit(w);
    let b = w.begin_edit();
    lemma_operate::<B>(b, op, s, b.vim.register);
    lemma_bump::<B>(b.apply::<B>(op, s, b.vim.register));
}

proof fn lemma_substitute_chars<B: VimBufferMut>(w: World)
    ensures
        grouped(w, w.substitute_chars::<B>()),
{
    reveal(World::substitute_chars);
    let a = w.without_count();
    lemma_begin_edit(a);
    let b = a.begin_edit();
    lemma_simple_edits::<B>(b, None, 'a', 'a', w.vim.total_count(), false);
    let c = b.delete_chars::<B>(w.vim.total_count(), false);
    lemma_start_insert::<B>(c, InsertKind::Change);
    lemma_bump::<B>(c.start_insert::<B>(InsertKind::Change));
}

proof fn lemma_count_on<B: VimBufferMut>(w: World, up: bool)
    ensures
        in_one_group(w, w.count_on::<B>(up)),
        edited_in_group(w, w.count_on::<B>(up)),
{
    reveal(World::count_on);
    reveal(World::fail);
    reveal(World::count_number);
    reveal(World::edit_replace);
    reveal(World::edit_insert);
    let a = w.without_count();
    lemma_begin_edit(a);
    match crate::number::number_near(a.doc, a.cursor()) {
        Some((from, to)) => {
            let start = if crate::number::minus_before(a.doc, from) {
                from - 1
            } else {
                from
            };
            let by = min(max(w.vim.total_count(), 1), i64::MAX as int);
            let delta = if up {
                by
            } else {
                -by
            };
            let text = crate::strs::signed_decimal(
                crate::number::wrapped(crate::number::number_at(a.doc, from, to) + delta),
            );
            lemma_edit::<B>(a.begin_edit(), start, to, text);
            lemma_bump::<B>(a.begin_edit().edit_replace::<B>(start, to, text));
        },
        None => {},
    }
}

proof fn lemma_step_jumps(w: World, n: int, back: bool)
    ensures
        idle_step(w, w.step_jumps(n, back)),
    decreases n,
{
    if n > 0 {
        reveal(World::step_jump);
        lemma_step_jumps(w.step_jump(back), n - 1, back);
    }
}

proof fn lemma_take_replies<B: VimBufferMut>(w: World, redo: bool, n: int, replies: Seq<Reply>)
    ensures
        books(w.take_replies::<B>(redo, n, replies)) == books(w),
    decreases n,
{
    if n > 0 {
        reveal(World::take_reply);
        lemma_take_replies::<B>(w.take_reply::<B>(redo, replies[0]), redo, n - 1, replies.drop_first());
    }
}

proof fn lemma_step_changes(w: World, n: int, older: bool)
    ensures
        idle_step(w, w.step_changes(n, older)),
{
    reveal(World::step_changes);
    reveal(World::show_change);
    reveal(World::fail);
}

proof fn lemma_replays(w: World)
    ensures
        idle_step(w, w.repeat_change()),
{
    reveal(World::repeat_change);
    reveal(Vim::replay);
}

proof fn lemma_looks<B: VimBufferMut>(w: World, env: Env, flag: bool)
    ensures
        idle_step(w, w.yank_lines::<B>()),
        idle_step(w, w.scroll_lines(env, flag)),
{
    reveal(World::yank_lines);
    reveal(World::yank_span);
    reveal(World::copy_out);
    reveal(World::scroll_lines);
}

proof fn lemma_quiet_cmds<B: VimBufferMut>(w: World, env: Env, flag: bool)
    ensures
        idle_step(w, w.yank_lines::<B>()),
        idle_step(w, w.scroll_lines(env, flag)),
        idle_step(w, w.repeat_change()),
        idle_step(w, w.go_change(flag)),
        idle_step(w, w.go_jump(flag)),
{
    let n = max(w.vim.total_count(), 1);
    lemma_looks::<B>(w, env, flag);
    lemma_replays(w);
    lemma_step_changes(w.without_count(), n, flag);
    lemma_step_jumps(w.without_count(), n, flag);
    reveal(World::go_jump);
}

proof fn lemma_normal_cmd<B: VimBufferMut>(
    w: World,
    env: Env,
    cmd: NormalCmd,
    replies: Seq<Reply>,
)
    ensures
        in_one_group(w, w.normal_cmd::<B>(env, cmd, replies)),
        read_only(w.normal_cmd::<B>(env, cmd, replies)) == read_only(w),
        cmd == NormalCmd::Undo || cmd == NormalCmd::Redo || edited_in_group(
            w,
            w.normal_cmd::<B>(env, cmd, replies),
        ),
{
    reveal(World::normal_cmd);
    match cmd {
        NormalCmd::SubstituteChar => {
            lemma_substitute_chars::<B>(w);
        },
        NormalCmd::SubstituteLine => {
            lemma_apply_to::<B>(
                w,
                Operator::Change,
                crate::ops::line_span(w.doc, w.line(), w.line()),
            );
        },
        NormalCmd::ChangeToEnd => {
            lemma_apply_to::<B>(w, Operator::Change, w.rest_of_line());
            lemma_start_insert::<B>(w, InsertKind::AppendLineEnd);
        },
        NormalCmd::DeleteToEnd => {
            lemma_apply_to::<B>(w, Operator::Delete, w.rest_of_line());
        },
        NormalCmd::Undo | NormalCmd::Redo => {
            let redo = cmd == NormalCmd::Redo;
            reveal(World::undo_command);
            lemma_take_replies::<B>(w.without_count(), redo, w.vim.total_count(), replies);
            let u = w.without_count().take_replies::<B>(redo, w.vim.total_count(), replies);
            lemma_highlights::<B>(u.vim, u.doc);
        },
        NormalCmd::IncrementNumber => {
            lemma_count_on::<B>(w, true);
        },
        NormalCmd::DecrementNumber => {
            lemma_count_on::<B>(w, false);
        },
        NormalCmd::DeleteCharForward
        | NormalCmd::DeleteCharBackward
        | NormalCmd::ToggleChar
        | NormalCmd::PutAfter
        | NormalCmd::PutBefore
        | NormalCmd::Join
        | NormalCmd::JoinLiteral
        | NormalCmd::LinewiseOp(_) => {
            lemma_edit_command::<B>(w, env, cmd);
        },
        _ => {
            lemma_quiet_cmds::<B>(w, env, true);
            lemma_quiet_cmds::<B>(w, env, false);
        },
    }
}

proof fn lemma_motion_command<B: VimBufferMut>(w: World, env: Env, m: Motion, count: int)
    ensures
        in_one_group(w, w.motion_command::<B>(env, m, count)),
        edited_in_group(w, w.motion_command::<B>(env, m, count)),
{
    reveal(World::motion_command);
    reveal(World::operate_over);
    lemma_go::<B>(w, env.seen, m, count);
    lemma_search::<B>(w, m, count);
    let r = crate::motions::landing::<B>(w.vim, w.doc, env.seen, m, count);
    let u = w.search::<B>(m, count);
    let s = crate::ops::motion_span(u.doc, u.cursor(), m, r);
    lemma_complete_operator::<B>(u, s);
    let d = u.complete_operator::<B>(s);
    lemma_end_command(d.with_vim(Vim { char_arg: None, ..d.vim }));
    let g = w.go::<B>(env.seen, m, count);
    lemma_end_command(g.with_vim(Vim { char_arg: None, ..g.vim }));
    let h = g.say(HostCall::Bell);
    lemma_end_command(h.with_vim(Vim { char_arg: None, ..h.vim }));
}

/// A command is at most one undo group; but for undo and redo themselves, it
/// changes no text outside that group, nor without counting it. A read-only
/// text stays as it is.
pub proof fn a_command_is_one_group<B: VimBufferMut>(
    w: World,
    env: Env,
    kind: CmdKind,
    replies: Seq<Reply>,
)
    ensures
        in_one_group(w, w.command::<B>(env, kind, replies)),
        read_only(w.command::<B>(env, kind, replies)) == read_only(w),
        kind == CmdKind::Normal(NormalCmd::Undo) || kind == CmdKind::Normal(NormalCmd::Redo)
            || edited_in_group(w, w.command::<B>(env, kind, replies)),
{
    reveal(World::command);
    reveal(Vim::stop_macro);
    match kind {
        CmdKind::Motion(m) => {
            lemma_motion_command::<B>(
                w.without_count(),
                env,
                w.meant(m),
                max(w.vim.total_count(), 1),
            );
        },
        CmdKind::Object(object) => {
            reveal(World::object_command);
            reveal(World::select_object);
            match crate::ops::object_span_at(w.doc, w.cursor(), object) {
                Some(s) => {
                    lemma_complete_operator::<B>(w, s);
                },
                None => {},
            }
        },
        CmdKind::Operator(op) => {
            lemma_operate_visual::<B>(w, op);
        },
        CmdKind::EnterInsert(insert) => {
            lemma_start_insert::<B>(w, insert);
            lemma_end_command(w.start_insert::<B>(insert));
        },
        CmdKind::EnterVisual(kind) => {
            lemma_end_command(w.with_vim(w.vim.enter_visual(kind)));
        },
        CmdKind::Normal(cmd) => {
            lemma_normal_cmd::<B>(w, env, cmd, replies);
            lemma_end_command(w.normal_cmd::<B>(env, cmd, replies));
        },
        CmdKind::Visual(cmd) => {
            lemma_visual_cmd::<B>(w, env, cmd);
            lemma_end_command(w.visual_cmd::<B>(env, cmd));
        },
    }
}

// ---- ex commands ------------------------------------------------------------------------------

proof fn lemma_replace_each<B: VimBufferMut>(w: World, hits: Seq<(usize, usize, Seq<char>)>)
    ensures
        step(w, w.replace_each::<B>(hits)),
    decreases hits.len(),
{
    if hits.len() > 0 {
        let h = hits.last();
        lemma_edit::<B>(w, h.0 as int, h.1 as int, h.2);
        lemma_replace_each::<B>(
            w.edit_replace::<B>(h.0 as int, h.1 as int, h.2),
            hits.drop_last(),
        );
    }
}

proof fn lemma_replace_hits<B: VimBufferMut>(w: World, job: Job, first: int, n: int)
    ensures
        in_one_group(w, w.replace_hits::<B>(job, first, n)),
        edited_in_group(w, w.replace_hits::<B>(job, first, n)),
{
    reveal(World::replace_hits);
    reveal(World::fail);
    let hits = job.all_hits(w.doc, first, n);
    if hits.len() > 0 {
        lemma_begin_edit(w);
        lemma_replace_each::<B>(w.begin_edit(), hits);
        let b = w.begin_edit().replace_each::<B>(hits);
        let line = min(job.last_hit(w.doc, first, n), b.doc.line_count() - 1);
        lemma_bump::<B>(b.moved_to(b.doc.first_non_blank(line)).end_edit());
    }
}

proof fn lemma_set_options(w: World, args: Seq<Seq<char>>)
    ensures
        idle_step(w, w.set_options(args)),
    decreases args.len(),
{
    if args.len() > 0 {
        reveal(World::set_option);
        reveal(World::fail);
        lemma_set_options(w, args.drop_last());
    }
}

proof fn lemma_do_ex<B: VimBufferMut>(w: World, cmd: Seq<char>, lines: Lines)
    ensures
        in_one_group(w, w.do_ex::<B>(cmd, lines)),
        edited_in_group(w, w.do_ex::<B>(cmd, lines)),
{
    reveal(World::do_ex);
    reveal(World::fail);
    match ex_of(cmd) {
        Ex::Nothing => {
            reveal(World::go_to_line);
            reveal(Vim::record_jump);
        },
        Ex::SetOptions(args) => {
            lemma_set_options(w, args);
        },
        Ex::Delete => {
            reveal(World::delete_lines);
            lemma_begin_edit(w);
            let s = crate::ops::line_span(w.doc, lines.first, lines.last);
            lemma_delete_span::<B>(w.begin_edit(), s, None);
            lemma_bump::<B>(w.begin_edit().delete_span::<B>(s, None).end_edit());
        },
        Ex::Substitute(c) => {
            lemma_substitute::<B>(w, c, lines.first, lines.last);
        },
        _ => {},
    }
}

proof fn lemma_substitute<B: VimBufferMut>(w: World, c: Change, first: int, last: int)
    ensures
        in_one_group(w, w.substitute::<B>(c, first, last)),
        edited_in_group(w, w.substitute::<B>(c, first, last)),
{
    reveal(World::substitute);
    reveal(World::fail);
    match w.job(c) {
        Some(job) => {
            lemma_replace_hits::<B>(w, job, first, last - first + 1);
        },
        None => {},
    }
}

/// An ex command is at most one undo group, however many lines it changes, and
/// leaves a read-only text alone.
pub proof fn an_ex_command_is_one_group<B: VimBufferMut>(w: World, line: Seq<char>)
    ensures
        in_one_group(w, w.run_ex::<B>(line)),
        edited_in_group(w, w.run_ex::<B>(line)),
{
    reveal(World::run_ex);
    reveal(World::fail);
    let text = crate::strs::trimmed(line);
    match w.range(text) {
        Some(lines) => {
            lemma_do_ex::<B>(w, crate::strs::trimmed(text.skip(lines.used)), lines);
        },
        None => {},
    }
}

// ---- insert sessions --------------------------------------------------------------------------

proof fn lemma_type_text<B: VimBufferMut>(w: World, text: Seq<char>)
    ensures
        kept(w, w.type_text::<B>(text)),
{
    reveal(World::type_text);
    reveal(World::overwrite);
    lemma_begin_edit(w);
    let b = w.begin_edit();
    let typed = b.as_typed::<B>(text);
    let at = b.cursor();
    let end = b.doc.line_end(b.line());
    let over = crate::insert_mode::overwritten_on(b.doc, at, end, typed.len() as int);
    let o = World { vim: Vim { overwritten: b.vim.overwritten + over, ..b.vim }, ..b };
    let stop = crate::insert_mode::overwrite_stop(b.doc, at, end, typed.len() as int);
    lemma_edit::<B>(o, at, stop, typed);
    lemma_edit::<B>(b, at, stop, typed);
    let e = if b.vim.mode == crate::mode::Mode::Replace {
        b.overwrite::<B>(typed)
    } else {
        b.edit_insert::<B>(at, typed)
    };
    assert(kept(w, e));
    let f = e.at(crate::edits::behind(at, typed));
    lemma_highlights::<B>(f.vim, f.doc);
}

proof fn lemma_cuts<B: VimBufferMut>(w: World, start: int, end: int)
    ensures
        kept(w, w.cut::<B>(start, end)),
        kept(w, w.delete_ahead::<B>()),
{
    reveal(World::cut);
    reveal(World::delete_ahead);
    reveal(World::edit_delete);
    lemma_begin_edit(w);
}

proof fn lemma_back_over<B: VimBufferMut>(w: World)
    ensures
        kept(w, w.back_over::<B>()),
{
    let at = w.cursor();
    lemma_cuts::<B>(w, at - 1, at);
    match w.doc.prev(at) {
        Some(p) => {
            lemma_cuts::<B>(w, p, at);
        },
        None => {},
    }
}

proof fn lemma_backspace<B: VimBufferMut>(w: World)
    ensures
        kept(w, w.backspace::<B>()),
{
    reveal(World::backspace);
    let over = w.vim.overwritten;
    let u = World { vim: Vim { overwritten: over.drop_last(), ..w.vim }, ..w };
    lemma_back_over::<B>(u);
    lemma_back_over::<B>(w);
    lemma_begin_edit(u);
    match (over.last(), u.doc.prev(u.cursor())) {
        (Some(c), Some(p)) => {
            lemma_edit::<B>(u.begin_edit(), p, u.cursor(), seq![c]);
        },
        _ => {},
    }
}

/// Until it is left, everything that is typed in an insert session belongs to
/// one undo group; leaving the session closes the group. A read-only text
/// stays as it is.
pub proof fn a_session_is_one_group<B: VimBufferMut>(w: World, env: Env, key: Stroke)
    ensures
        w.vim.open_undo is Some && (w.vim.insert_register_pending || !leaves_insert(key)) ==> group_of(
            w.insert_key::<B>(env, key).0,
        ) == group_of(w),
        !w.vim.insert_register_pending && leaves_insert(key) ==> group_of(
            w.insert_key::<B>(env, key).0,
        ) == (None::<u64>, w.vim.undo_seq, begun(w.vim.told)),
        read_only(w.insert_key::<B>(env, key).0) == read_only(w),
{
    reveal(World::insert_key);
    if w.vim.insert_register_pending {
        reveal(World::type_register);
        let u = World { vim: Vim { insert_register_pending: false, ..w.vim }, ..w };
        match key.printable() {
            Some(name) => {
                match u.vim.registers.paste_slot(name, env.clip) {
                    Some(slot) => {
                        lemma_type_text::<B>(u, slot.text);
                    },
                    None => {},
                }
            },
            None => {},
        }
    } else if leaves_insert(key) {
        lemma_exit_insert::<B>(w);
    } else {
        match key.kind {
            Kind::Named(name) => {
                lemma_insert_named::<B>(w, env, name);
            },
            Kind::Char(_) => {
                reveal(World::insert_ctrl);
                let to = max(
                    crate::word::word_start_before(w.doc, w.cursor(), false),
                    w.doc.line_start(w.line()),
                );
                lemma_cuts::<B>(w, to, w.cursor());
                lemma_cuts::<B>(w, w.doc.line_start(w.line()), w.cursor());
            },
        }
    }
}

proof fn lemma_insert_named<B: VimBufferMut>(w: World, env: Env, name: Seq<char>)
    ensures
        w.insert_named::<B>(env, name) matches Some(u) ==> kept(w, u),
{
    reveal(World::insert_named);
    lemma_type_text::<B>(w, "\n"@);
    lemma_type_text::<B>(w, "\t"@);
    let stop = max(w.vim.options.tabstop as int, 1);
    let column = w.cursor() - w.doc.line_start(w.line());
    lemma_type_text::<B>(w, crate::edits::run_of(' ', stop - column % stop));
    lemma_backspace::<B>(w);
    lemma_cuts::<B>(w, 0, 0);
    match crate::insert_mode::insert_motion(name) {
        Some(m) => {
            lemma_go::<B>(w, env.seen, m, 1);
        },
        None => {},
    }
}

proof fn lemma_exit_insert<B: VimBufferMut>(w: World)
    ensures
        books(w.exit_insert::<B>()) == (
            None::<u64>,
            w.vim.undo_seq,
            begun(w.vim.told),
            read_only(w),
        ),
{
    reveal(World::exit_insert);
    reveal(World::replicate_block);
    reveal(Vim::commit_record);
    let a = w.at(w.insert_exit());
    let b = World { vim: a.vim.mark_insert_exit(), ..a };
    let c = World { vim: Vim { block_insert: None, ..b.vim }, ..b };
    match b.vim.block_insert {
        Some(plan) => {
            lemma_insert_at_each::<B>(
                c,
                crate::insert_mode::sorted_down(crate::insert_mode::replica_rows(plan)),
                plan.text,
            );
        },
        None => {},
    }
    let d = b.replicate_block::<B>();
    let e = World { vim: Vim { insert_session: None, ..d.vim.commit_record() }, ..d };
    lemma_highlights::<B>(e.vim, e.doc);
}

// ---- one key ----------------------------------------------------------------------------------

proof fn lemma_complete_char<B: VimBufferMut>(w: World, env: Env, key: Stroke)
    ensures
        in_one_group(w, w.complete_char::<B>(env, key)),
        edited_in_group(w, w.complete_char::<B>(env, key)),
{
    reveal(World::complete_char);
    match (w.vim.char_arg_cmd, key.printable()) {
        (Some(cmd), Some(c)) => {
            let v = Vim { char_arg_cmd: None, ..w.vim };
            let u = w.with_vim(Vim { char_arg: Some(c), ..v });
            lemma_take_char::<B>(u, env, cmd, c);
        },
        _ => {},
    }
}

proof fn lemma_finish_char(w: World)
    ensures
        w.finish_char().doc == w.doc,
        w.finish_char().vim.undo_seq == w.vim.undo_seq,
        w.finish_char().vim.told == w.vim.told,
        w.finish_char().vim.edit_generation == w.vim.edit_generation,
        w.finish_char().vim.open_undo == w.vim.open_undo || w.finish_char().vim.open_undo is None,
{
    lemma_end_command(w.with_vim(Vim { char_arg: None, ..w.vim }));
}

proof fn lemma_jump_to_mark(w: World, c: char, linewise: bool)
    ensures
        idle_step(w, w.jump_to_mark(c, linewise)),
{
    reveal(World::jump_to_mark);
    reveal(Vim::record_jump);
}

proof fn lemma_replace_with<B: VimBufferMut>(w: World, c: char)
    ensures
        in_one_group(w, w.replace_with::<B>(c)),
        edited_in_group(w, w.replace_with::<B>(c)),
{
    reveal(World::replace_with);
    let a = w.without_count();
    lemma_begin_edit(a);
    let b = a.begin_edit();
    lemma_simple_edits::<B>(b, None, 'a', c, w.vim.total_count(), true);
    lemma_bump::<B>(b.replace_chars::<B>(c, w.vim.total_count()).end_edit());
}

proof fn lemma_play_macro<B: VimBufferMut>(w: World, c: char)
    ensures
        in_one_group(w, w.play_macro::<B>(c)),
        edited_in_group(w, w.play_macro::<B>(c)),
{
    reveal(World::play_macro);
    reveal(Vim::replay);
    match w.vim.last_ex {
        Some(line) => {
            an_ex_command_is_one_group::<B>(w.without_count(), line);
        },
        None => {},
    }
}

/// A step that ends with the command closed.
proof fn lemma_closed(w: World, u: World)
    requires
        in_one_group(w, u),
        edited_in_group(w, u),
    ensures
        in_one_group(w, u.finish_char()),
        edited_in_group(w, u.finish_char()),
{
    lemma_finish_char(u);
}

proof fn lemma_take_find<B: VimBufferMut>(w: World, env: Env, forward: bool, till: bool, c: char)
    ensures
        in_one_group(w, w.take_char::<B>(env, CharArgCmd::Find { forward, till }, c)),
        edited_in_group(w, w.take_char::<B>(env, CharArgCmd::Find { forward, till }, c)),
{
    reveal(World::take_char);
    let u = w.with_vim(Vim { last_find: Some((c, forward, till)), ..w.vim });
    lemma_motion_command::<B>(
        u.without_count(),
        env,
        Motion::FindChar { forward, till },
        max(u.vim.total_count(), 1),
    );
}

proof fn lemma_take_mark<B: VimBufferMut>(w: World, env: Env, linewise: bool, c: char)
    ensures
        in_one_group(w, w.take_char::<B>(env, CharArgCmd::JumpMark { linewise }, c)),
        edited_in_group(w, w.take_char::<B>(env, CharArgCmd::JumpMark { linewise }, c)),
{
    reveal(World::take_char);
    if w.vim.op is Some {
        lemma_motion_command::<B>(
            w.without_count(),
            env,
            Motion::MarkJump { linewise },
            max(w.vim.total_count(), 1),
        );
    } else {
        lemma_jump_to_mark(w, c, linewise);
        lemma_closed(w, w.jump_to_mark(c, linewise));
    }
}

proof fn lemma_take_replace<B: VimBufferMut>(w: World, env: Env, c: char)
    ensures
        in_one_group(w, w.take_char::<B>(env, CharArgCmd::Replace, c)),
        edited_in_group(w, w.take_char::<B>(env, CharArgCmd::Replace, c)),
{
    lemma_replace_with::<B>(w, c);
    lemma_closed(w, w.replace_with::<B>(c));
    reveal(World::take_char);
}

proof fn lemma_take_play<B: VimBufferMut>(w: World, env: Env, c: char)
    ensures
        in_one_group(w, w.take_char::<B>(env, CharArgCmd::MacroPlay, c)),
        edited_in_group(w, w.take_char::<B>(env, CharArgCmd::MacroPlay, c)),
{
    lemma_play_macro::<B>(w, c);
    lemma_closed(w, w.play_macro::<B>(c));
    reveal(World::take_char);
}

proof fn lemma_take_name<B: VimBufferMut>(w: World, env: Env, c: char)
    ensures
        in_one_group(w, w.take_char::<B>(env, CharArgCmd::MarkSet, c)),
        edited_in_group(w, w.take_char::<B>(env, CharArgCmd::MarkSet, c)),
        in_one_group(w, w.take_char::<B>(env, CharArgCmd::MacroRecord, c)),
        edited_in_group(w, w.take_char::<B>(env, CharArgCmd::MacroRecord, c)),
{
    lemma_closed(
        w,
        w.with_vim(Vim { marks: w.vim.marks.with_mark(c, w.vim.cursor.offset), ..w.vim }),
    );
    lemma_closed(w, w.with_vim(Vim { macro_capture: Some((c, Seq::empty())), ..w.vim }));
    reveal(World::take_char);
}

proof fn lemma_take_char<B: VimBufferMut>(w: World, env: Env, cmd: CharArgCmd, c: char)
    ensures
        in_one_group(w, w.take_char::<B>(env, cmd, c)),
        edited_in_group(w, w.take_char::<B>(env, cmd, c)),
{
    match cmd {
        CharArgCmd::Find { forward, till } => {
            lemma_take_find::<B>(w, env, forward, till, c);
        },
        CharArgCmd::JumpMark { linewise } => {
            lemma_take_mark::<B>(w, env, linewise, c);
        },
        CharArgCmd::Replace => {
            lemma_take_replace::<B>(w, env, c);
        },
        CharArgCmd::MarkSet | CharArgCmd::MacroRecord => {
            lemma_take_name::<B>(w, env, c);
        },
        CharArgCmd::MacroPlay => {
            lemma_take_play::<B>(w, env, c);
        },
    }
}

proof fn lemma_nav_key<B: VimBufferMut>(w: World, env: Env, key: Stroke)
    ensures
        w.nav_key::<B>(env, key) matches Some(u) ==> in_one_group(w, u) && edited_in_group(w, u),
{
    reveal(World::nav_delete);
    reveal(World::nav_move);
    let a = w.with_vim(Vim { count: None, ..w.vim });
    lemma_begin_edit(a);
    let n = crate::record::or_one(w.vim.count);
    lemma_simple_edits::<B>(a.begin_edit(), None, 'a', 'a', n, false);
    lemma_bump::<B>(a.begin_edit().delete_chars::<B>(n, false).end_edit());
    match key.kind {
        Kind::Named(name) => {
            match crate::pipeline::nav_motion(name) {
                Some(m) => {
                    lemma_go::<B>(a, env.seen, m, max(n, 1));
                },
                None => {},
            }
        },
        Kind::Char(_) => {},
    }
}

proof fn lemma_sequences<B: VimBufferMut>(
    w: World,
    env: Env,
    phase: Phase,
    key: Stroke,
    replies: Seq<Reply>,
)
    ensures
        in_one_group(w, w.sequence_key::<B>(env, phase, key, replies).0),
        in_one_group(w, w.first_key::<B>(env, phase, key, replies).0),
        read_only(w.sequence_key::<B>(env, phase, key, replies).0) == read_only(w),
        read_only(w.first_key::<B>(env, phase, key, replies).0) == read_only(w),
{
    reveal(World::sequence_key);
    reveal(World::broken_sequence);
    reveal(World::first_key);
    let keys = w.vim.cmd_seq.push(key);
    match crate::tables::builtin(phase, keys) {
        Some(kind) => {
            a_command_is_one_group::<B>(
                w.with_vim(w.vim.sequence_done(keys, kind)),
                env,
                kind,
                replies,
            );
        },
        None => {
            let n = crate::tables::longest_builtin(phase, keys, keys.len() as int);
            let cleared = w.with_vim(Vim { cmd_seq: Seq::empty(), ..w.vim });
            a_command_is_one_group::<B>(
                cleared,
                env,
                crate::tables::builtin(phase, keys.take(n))->0,
                replies,
            );
        },
    }
    match crate::tables::builtin(phase, seq![key]) {
        Some(kind) => {
            a_command_is_one_group::<B>(w, env, kind, replies);
        },
        None => {},
    }
}

proof fn lemma_prompt<B: VimBufferMut>(w: World, key: Stroke)
    ensures
        in_one_group(w, w.cmdline_key::<B>(key)),
        edited_in_group(w, w.cmdline_key::<B>(key)),
{
    reveal(World::cmdline_key);
    reveal(World::prompt_char);
    reveal(World::prompt_back);
    reveal(World::prompt_browse);
    reveal(World::cancel_cmdline);
    reveal(Vim::with_incsearch);
    match w.vim.mode {
        crate::mode::Mode::CommandLine { prompt } => {
            lemma_execute_search::<B>(w, prompt);
            lemma_execute_ex::<B>(w);
        },
        _ => {},
    }
}

proof fn lemma_execute_search<B: VimBuffer>(w: World, prompt: char)
    ensures
        idle_step(w, w.execute_search::<B>(prompt)),
{
    reveal(World::execute_search);
    let pattern = w.vim.cmdline.buffer;
    let a = w.with_vim(Vim { mode: crate::mode::Mode::Normal, ..w.vim });
    let p = match a.vim.search.pattern {
        Some(last) if pattern.len() == 0 => last,
        _ => pattern,
    };
    let b = if pattern.len() == 0 {
        a
    } else {
        a.with_vim(Vim { cmdline: a.vim.cmdline.remembering(prompt, pattern), ..a.vim })
    };
    lemma_with_pattern::<B>(b, p, prompt == '/');
    lemma_go_to_match::<B>(
        b.with_vim(b.vim.with_pattern::<B>(b.doc, p, prompt == '/')),
        prompt == '/',
    );
}

proof fn lemma_with_pattern<B: VimBuffer>(w: World, pattern: Seq<char>, forward: bool)
    ensures
        idle_step(w, w.with_vim(w.vim.with_pattern::<B>(w.doc, pattern, forward))),
{
    reveal(Vim::with_pattern);
}

proof fn lemma_go_to_match<B: VimBuffer>(w: World, forward: bool)
    ensures
        idle_step(w, w.go_to_match::<B>(forward)),
{
    reveal(World::go_to_match);
    reveal(Vim::record_jump);
    lemma_highlights::<B>(w.vim, w.doc);
}

proof fn lemma_execute_ex<B: VimBufferMut>(w: World)
    ensures
        in_one_group(w, w.execute_ex::<B>()),
        edited_in_group(w, w.execute_ex::<B>()),
{
    reveal(World::execute_ex);
    reveal(World::run_line);
    let line = w.vim.cmdline.buffer;
    lemma_finish_visual(w);
    let a = if w.vim.cmdline_visual is Some {
        w.exit_visual()
    } else {
        w
    };
    let b = a.with_vim(
        Vim { mode: crate::mode::Mode::Normal, cmdline_visual: None, ..a.vim },
    );
    an_ex_command_is_one_group::<B>(
        b.with_vim(
            Vim {
                cmdline: b.vim.cmdline.remembering(':', line),
                last_ex: Some(line),
                ..b.vim
            },
        ),
        line,
    );
    lemma_end_command(b.run_line::<B>(line));
}

proof fn lemma_normal_key<B: VimBufferMut>(w: World, env: Env, key: Stroke, replies: Seq<Reply>)
    ensures
        in_one_group(w, w.normal_key::<B>(env, key, replies).0),
        in_one_group(w, w.visual_key::<B>(env, key, replies).0),
        read_only(w.normal_key::<B>(env, key, replies).0) == read_only(w),
        read_only(w.visual_key::<B>(env, key, replies).0) == read_only(w),
{
    reveal(World::normal_key);
    reveal(World::visual_key);
    reveal(World::fresh_key);
    reveal(World::fresh_visual_key);
    reveal(World::name_register);
    reveal(World::give_up);
    reveal(World::double_operator);
    lemma_complete_char::<B>(w, env, key);
    let u = w.without_count();
    lemma_complete_operator::<B>(u, u.counted_lines(w.vim.total_count()));
    lemma_sequences::<B>(w, env, w.vim.phase(), key, replies);
    lemma_sequences::<B>(w, env, Phase::Visual, key, replies);
    lemma_nav_key::<B>(w, env, key);
    lemma_insert_block(w, true);
    lemma_insert_block(w, false);
    lemma_finish_visual(w.reset_pending());
}

/// Whatever a key does, it begins at most one undo group, and none while one
/// is open; in an insert session one is. A read-only text stays as it is.
pub proof fn a_key_is_one_group<B: VimBufferMut>(
    w: World,
    env: Env,
    key: Stroke,
    replies: Seq<Reply>,
)
    ensures
        (w.vim.mode.inserting() ==> w.vim.open_undo is Some) ==> in_one_group(
            w,
            w.process_key::<B>(env, key, replies).0,
        ),
        read_only(w.process_key::<B>(env, key, replies).0) == read_only(w),
{
    reveal(World::process_key);
    lemma_normal_key::<B>(w, env, key, replies);
    lemma_prompt::<B>(w, key);
    if w.vim.mode.inserting() {
        a_session_is_one_group::<B>(w, env, key);
    }
}

// ---- a key and all that follows it ------------------------------------------------------------

proof fn lemma_replay_text<B: VimBufferMut>(w: World)
    ensures
        read_only(w.replay_text::<B>()) == read_only(w),
{
    reveal(World::replay_text);
    let texts = w.vim.replay_texts;
    if texts.len() > 0 {
        lemma_type_text::<B>(
            w.with_vim(Vim { replay_texts: texts.drop_first(), ..w.vim }),
            texts[0],
        );
    }
}

spec fn turned(t: Turn) -> World {
    match t {
        Turn::More(w, _) => w,
        Turn::Leave(w, _) => w,
        Turn::Stop(w) => w,
    }
}

proof fn lemma_take_front<B: VimBufferMut>(w: World, moment: Moment)
    ensures
        read_only(turned(w.take_front::<B>(moment))) == read_only(w),
{
    reveal(World::take_front);
    reveal(World::turn_key);
    let key = w.vim.pending_keys[0];
    let q = w.with_vim(Vim { pending_keys: w.vim.pending_keys.drop_first(), ..w.vim });
    lemma_replay_text::<B>(q);
    a_key_is_one_group::<B>(
        q.with_vim(q.vim.record(Step::Key(key))),
        moment.env,
        key,
        moment.replies,
    );
}

proof fn lemma_turn<B: VimBufferMut>(w: World, class: ModeClass, moment: Moment)
    ensures
        read_only(turned(w.turn::<B>(class, moment))) == read_only(w),
{
    reveal(World::turn);
    reveal(World::expand_mapping);
    lemma_take_front::<B>(w, moment);
    lemma_take_front::<B>(
        w.with_vim(Vim { no_remap_left: (w.vim.no_remap_left - 1) as usize, ..w.vim }),
        moment,
    );
}

proof fn lemma_drain<B: VimBufferMut>(
    w: World,
    class: ModeClass,
    left: int,
    declined: bool,
    moments: Seq<Moment>,
)
    ensures
        read_only(w.drain::<B>(class, left, declined, moments).0) == read_only(w),
    decreases left,
{
    if w.vim.pending_keys.len() > 0 && left > 0 {
        lemma_turn::<B>(w, class, moments[0]);
        match w.turn::<B>(class, moments[0]) {
            Turn::More(u, unknown) => {
                lemma_drain::<B>(u, class, left - 1, declined || unknown, moments.drop_first());
            },
            _ => {},
        }
    }
}

proof fn lemma_one_turn<B: VimBufferMut>(w: World, class: ModeClass, moment: Moment)
    requires
        w.vim.pending_keys.len() > 0,
        w.vim.pending_keys[0].kind != text_marker().kind,
        w.vim.mode.inserting() ==> w.vim.open_undo is Some,
    ensures
        in_one_group(w, turned(w.turn::<B>(class, moment))),
{
    let n = if w.vim.no_remap_left > 0 {
        w.with_vim(Vim { no_remap_left: (w.vim.no_remap_left - 1) as usize, ..w.vim })
    } else {
        w
    };
    let key = n.vim.pending_keys[0];
    let q = n.with_vim(Vim { pending_keys: n.vim.pending_keys.drop_first(), ..n.vim });
    let r = q.with_vim(q.vim.record(Step::Key(key)));
    let (u, outcome) = r.process_key::<B>(moment.env, key, moment.replies);
    assert(group_of(r) == group_of(w) && r.vim.mode == w.vim.mode) by {
        reveal(Vim::record);
    }
    a_key_is_one_group::<B>(r, moment.env, key, moment.replies);
    assert(group_of(u.with_vim(u.vim.settled(outcome))) == group_of(u)) by {
        reveal(Vim::settled);
        reveal(Vim::unrecord);
    }
    assert(in_one_group(w, turned(n.take_front::<B>(moment)))) by {
        reveal(World::take_front);
        reveal(World::turn_key);
    }
    reveal(World::turn);
    reveal(World::expand_mapping);
}

/// A key that the host hands in begins at most one undo group, and none while
/// one is open, unless it goes on in a mapping or a repeat; whatever mode the
/// engine is in, the host is told of that group and of no other.
pub proof fn a_pressed_key_is_one_group<B: VimBufferMut>(w: World, key: Stroke, moments: Seq<Moment>)
    requires
        w.vim.pending_keys.len() == 0,
        w.vim.mode.inserting() ==> w.vim.open_undo is Some,
        normalized(key).kind != text_marker().kind,
        w.with_vim(Vim { pending_keys: seq![normalized(key)], ..w.vim }).turn::<B>(
            class_of_mode(w.vim.mode),
            moments[0],
        ) matches Turn::More(u, _) ==> u.vim.pending_keys.len() == 0,
    ensures
        in_one_group(w, w.handle_key::<B>(key, moments).0),
{
    reveal(World::handle_key);
    let k = normalized(key);
    let r = w.with_vim(w.vim.record(Step::Key(k)));
    assert(group_of(r) == group_of(w)) by {
        reveal(Vim::record);
    }
    lemma_prompt::<B>(r, k);
    let q = w.with_vim(Vim { pending_keys: w.vim.pending_keys.push(k), ..w.vim });
    assert(w.vim.pending_keys.push(k) =~= seq![k]);
    lemma_one_turn::<B>(q, class_of_mode(w.vim.mode), moments[0]);
    let u = turned(q.turn::<B>(class_of_mode(w.vim.mode), moments[0]));
    assert(group_of(u.with_vim(u.vim.queue_done())) == group_of(u)) by {
        reveal(Vim::queue_done);
    }
    reveal_with_fuel(World::drain, 3);
}

/// Of a step that begins at most one undo group the host hears exactly that:
/// it is told of the group that was begun, once, and of none otherwise.
pub proof fn the_host_hears_of_the_group<H: VimHost>(a: World, b: World, host: H, old_host: H)
    requires
        in_one_group(a, b),
        hears(host, b.vim.told, old_host, a.vim.told),
    ensures
        if group_of(b).2 == group_of(a).2 {
            begun(host.told()) == begun(old_host.told())
        } else {
            a.vim.open_undo is None && begun(host.told()) == begun(old_host.told()).push(
                b.vim.undo_seq,
            )
        },
{
    told_is_heard(host, b.vim.told, old_host, a.vim.told);
    let gained = b.vim.told.skip(a.vim.told.len() as int);
    assert(b.vim.told =~= a.vim.told + gained);
    lemma_begun_concat(a.vim.told, gained);
    lemma_begun_concat(old_host.told(), gained);
    let (x, g) = (begun(a.vim.told), begun(gained));
    assert(begun(b.vim.told) == x + g);
    assert((x + g).len() == x.len() + g.len());
    if begun(b.vim.told) == x {
        assert(g.len() == 0);
        assert(begun(old_host.told()) + g =~= begun(old_host.told()));
    } else {
        assert(g.len() == 1);
        assert((x + g)[x.len() as int] == g[0]);
        assert(g =~= seq![b.vim.undo_seq]);
        assert(begun(old_host.told()) + g =~= begun(old_host.told()).push(b.vim.undo_seq));
    }
}

/// No key changes a read-only text, whatever mappings, macros and repeats it
/// leads through.
pub proof fn read_only_text_stays<B: VimBufferMut>(w: World, key: Stroke, moments: Seq<Moment>)
    requires
        !w.editable,
    ensures
        w.handle_key::<B>(key, moments).0.doc == w.doc,
        !w.handle_key::<B>(key, moments).0.editable,
{
    reveal(World::handle_key);
    let k = normalized(key);
    lemma_prompt::<B>(w.with_vim(w.vim.record(Step::Key(k))), k);
    lemma_drain::<B>(
        w.with_vim(Vim { pending_keys: w.vim.pending_keys.push(k), ..w.vim }),
        class_of_mode(w.vim.mode),
        TURN_LIMIT as int,
        false,
        moments,
    );
    assert(read_only(w.handle_key::<B>(key, moments).0) == read_only(w));
}

} // verus!
