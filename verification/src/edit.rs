//! An edit box: one line of text (form fields, paths) or many (a message body).
//!
//! Keys are routed by the host: it hands a [`Keystroke`] to
//! [`VimEdit::process_key`]; text that an input method commits comes in
//! through [`VimEdit::replace_text_in_range`]. What the engine wants done is
//! collected in an [`EditHost`]; flushing turns it into [`VimEditEvent`]s and
//! [`Effects`], which the view carries out.
use crate::buffer::{clamp_to_line_end, VimBuffer};
use crate::cells::{cells, chars_in};
use crate::chars::{char_columns, columns};
use crate::dispatch::{
    all_typed_alike, core_key, dispatch_text, to_core_key, what_is_shown_is_seen_typing, Keystroke,
};
use crate::doc::{max, min, Doc};
use crate::drive::{all_alike, what_is_shown_is_seen, Moment};
use crate::edit_host::{a_box_is_steady, nothing_pending, EditHost, Pending};
use crate::engine::new_vim;
use crate::host::{all_declined, told_is_heard, Env, ScrollAnchor};
use crate::key::{char_stroke, Key, Kind, KeyKind, Stroke};
use crate::lines::{
    byte_at_units, joined, offset_of, offset_rc, rc_of, rc_offset, rows_doc, rows_fit, rows_of,
    LinesBuf, SharedLines,
};
use crate::mode::{Mode, VisualKind};
use crate::shift::plus;
use crate::state::{text_of, texts_of, Ctx, Cursor, KeyResult, Vim, VimState, World};
use crate::strs::{byte_len, chars_of, copy_str, same_str, split_at};
use crate::text::{ceil_at, ceil_in, floor_at, floor_in, sound, units_before};
use std::ops::Range;
use vstd::prelude::*;

verus! {

// ---- model ---------------------------------------------------------------------------------------

/// What the host can observe (collected while flushing, drained by the host).
#[derive(Debug, PartialEq, Eq)]
pub enum VimEditEvent {
    Changed,
    /// `:w` / `ZZ`
    Save,
    /// `:q`
    Close,
    Status(String),
}

/// What a [`VimEditEvent`] stands for.
pub enum Event {
    Changed,
    Save,
    Close,
    Status(Seq<char>),
}

impl View for VimEditEvent {
    type V = Event;

    open spec fn view(&self) -> Event {
        match self {
            VimEditEvent::Changed => Event::Changed,
            VimEditEvent::Save => Event::Save,
            VimEditEvent::Close => Event::Close,
            VimEditEvent::Status(s) => Event::Status(s@),
        }
    }
}

pub open spec fn events(v: Seq<VimEditEvent>) -> Seq<Event> {
    v.map_values(|e: VimEditEvent| e@)
}

/// Lines and the cursor's row and column, to go back to.
pub struct Memo {
    pub lines: Vec<String>,
    pub cursor: (usize, usize),
}

/// What a [`Memo`] holds.
pub struct Past {
    pub rows: Seq<Seq<char>>,
    pub cursor: (usize, usize),
}

impl View for Memo {
    type V = Past;

    open spec fn view(&self) -> Past {
        Past { rows: texts_of(self.lines@), cursor: self.cursor }
    }
}

pub open spec fn pasts(v: Seq<Memo>) -> Seq<Past> {
    v.map_values(|m: Memo| m@)
}

pub struct VimEdit {
    pub single_line: bool,
    pub password: bool,
    pub buf: LinesBuf,
    pub host: EditHost,
    pub vim: VimState,
    pub text_undo: Vec<Memo>,
    pub text_redo: Vec<Memo>,
    /// The bytes of the text that an input method is composing.
    pub marked_range: Option<Range<usize>>,
    /// How many rows are visible, for the viewport that the engine asks for.
    pub visible_rows: usize,
    pub modified: bool,
    pub label: &'static str,
    /// What flushing produced; the host drains it after a key.
    pub pending_events: Vec<VimEditEvent>,
    /// A mouse drag is under way.
    pub mouse_selecting: bool,
}

/// What a [`VimEdit`] holds.
pub struct Edit {
    pub single_line: bool,
    pub password: bool,
    pub rows: Seq<Seq<char>>,
    pub edition: u64,
    pub host: Pending,
    pub vim: Vim,
    pub undo: Seq<Past>,
    pub redo: Seq<Past>,
    pub marked: Option<(usize, usize)>,
    pub visible_rows: usize,
    pub modified: bool,
    pub label: Seq<char>,
    pub events: Seq<Event>,
    pub selecting: bool,
}

impl View for VimEdit {
    type V = Edit;

    open spec fn view(&self) -> Edit {
        Edit {
            single_line: self.single_line,
            password: self.password,
            rows: self.buf.rows(),
            edition: self.buf.0.edition(),
            host: self.host@,
            vim: self.vim@,
            undo: pasts(self.text_undo@),
            redo: pasts(self.text_redo@),
            marked: crate::search::opt_pair(self.marked_range),
            visible_rows: self.visible_rows,
            modified: self.modified,
            label: self.label@,
            events: events(self.pending_events@),
            selecting: self.mouse_selecting,
        }
    }
}

/// What the view has to carry out after a flush.
pub struct Effects {
    /// Text for the system clipboard.
    pub clipboard: Option<String>,
    /// A line to bring into view.
    pub scroll: Option<(usize, ScrollAnchor)>,
}

/// Lines joined by a character.
pub open spec fn joined_by(lines: Seq<Seq<char>>, c: char) -> Seq<char>
    decreases lines.len(),
{
    if lines.len() == 0 {
        Seq::empty()
    } else if lines.len() == 1 {
        lines[0]
    } else {
        joined_by(lines.drop_last(), c).push(c) + lines.last()
    }
}

/// A text on one line: line breaks become spaces.
pub open spec fn on_one_line(s: Seq<char>) -> Seq<char> {
    s.map_values(
        |c: char|
            if c == '\n' || c == '\r' {
                ' '
            } else {
                c
            },
    )
}

impl Edit {
    pub open spec fn doc(self) -> Doc {
        sound(rows_doc(self.rows))
    }

    /// Engine and text.
    pub open spec fn world(self) -> World {
        World { vim: self.vim, doc: self.doc(), editable: true, edition: self.edition }
    }

    /// Everything but engine, text and host is as in `e`, and the host is what
    /// it becomes by what the engine told it since. It undoes nothing itself.
    pub open spec fn framed(self, e: Edit) -> bool {
        &&& e.vim.told.is_prefix_of(self.vim.told)
        &&& all_declined(self.vim.told.skip(e.vim.told.len() as int))
        &&& self == (Edit {
            rows: self.rows,
            edition: self.edition,
            host: e.host.served(self.vim.told.skip(e.vim.told.len() as int)),
            vim: self.vim,
            ..e
        })
    }

    pub open spec fn text(self) -> Seq<char> {
        joined_by(
            self.rows,
            if self.single_line {
                ' '
            } else {
                '\n'
            },
        )
    }

    pub open spec fn with_rows(self, rows: Seq<Seq<char>>) -> Edit {
        Edit { rows, edition: self.edition.wrapping_add(1), ..self }
    }

    /// Row and column of the cursor.
    pub open spec fn cursor_rc(self) -> (int, int) {
        rc_of(self.rows, self.vim.cursor.offset as int)
    }

    /// The cursor at a row and column.
    pub open spec fn cursor_at(self, row: int, col: int) -> Edit {
        Edit {
            vim: Vim {
                cursor: Cursor {
                    offset: offset_of(self.rows, row, col) as usize,
                    desired_col: Some(col as usize),
                },
                ..self.vim
            },
            ..self
        }
    }

    /// The lines of a box for one line joined by spaces.
    pub open spec fn collapsed(self) -> Edit {
        if self.rows.len() > 1 {
            let e = self.with_rows(seq![joined_by(self.rows, ' ')]);
            Edit { vim: self.vim.at(min(self.vim.cursor.offset as int, e.doc().len())), ..e }
        } else {
            self
        }
    }

    /// Never a cursor behind its line's end; a box for one line has one line.
    pub open spec fn settled(self) -> Edit {
        let d = self.doc();
        let e = Edit {
            vim: self.vim.at(d.clamp(min(self.vim.cursor.offset as int, d.len()))),
            ..self
        };
        if self.single_line {
            e.collapsed()
        } else {
            e
        }
    }

    /// The text before an undo group kept, unless the group left it as it was.
    pub open spec fn remembering(self, rows: Seq<Seq<char>>, offset: usize) -> Edit {
        if rows == self.rows {
            self
        } else {
            let (row, col) = rc_of(rows, offset as int);
            Edit {
                undo: self.undo.push(Past { rows, cursor: (row as usize, col as usize) }),
                redo: Seq::empty(),
                ..self
            }
        }
    }

    /// An insert session that is over, or a command, ends its undo group.
    pub open spec fn group_kept(self) -> Edit {
        if self.vim.mode.inserting() {
            self
        } else {
            let e = Edit {
                host: Pending { snapshot: None, group: None, ..self.host },
                ..self
            };
            match self.host.snapshot {
                Some((rows, offset)) => e.remembering(rows, offset),
                None => e,
            }
        }
    }

    /// What the host was told, as events: status, save, close.
    pub open spec fn reported(self) -> Edit {
        let status = match self.host.status {
            Some(s) => self.events.push(Event::Status(s)),
            None => self.events,
        };
        let save = if self.host.save {
            status.push(Event::Save)
        } else {
            status
        };
        Edit {
            events: if self.host.close {
                save.push(Event::Close)
            } else {
                save
            },
            host: Pending {
                clip: match self.host.copied {
                    Some(s) => Some(s),
                    None => self.host.clip,
                },
                copied: None,
                status: None,
                save: false,
                close: false,
                scroll: None,
                ..self.host
            },
            ..self
        }
    }

    pub open spec fn noticed(self, before: u64) -> Edit {
        if self.edition != before {
            Edit { modified: true, events: self.events.push(Event::Changed), ..self }
        } else {
            self
        }
    }

    /// Everything collected since the lines were in edition `before`.
    pub open spec fn flushed(self, before: u64) -> Edit {
        self.noticed(before).group_kept().reported().settled()
    }

    /// The text before the last change, if one is kept.
    pub open spec fn undone(self) -> Edit {
        if self.undo.len() == 0 {
            self
        } else {
            let past = self.undo.last();
            let (row, col) = self.cursor_rc();
            let e = Edit {
                undo: self.undo.drop_last(),
                redo: self.redo.push(
                    Past { rows: self.rows, cursor: (row as usize, col as usize) },
                ),
                vim: Vim { mode: Mode::Normal, ..self.vim },
                ..self.with_rows(past.rows)
            };
            e.cursor_at(past.cursor.0 as int, past.cursor.1 as int)
        }
    }

    /// The text before the last undo, if one is kept.
    pub open spec fn redone(self) -> Edit {
        if self.redo.len() == 0 {
            self
        } else {
            let past = self.redo.last();
            let (row, col) = self.cursor_rc();
            let e = Edit {
                redo: self.redo.drop_last(),
                undo: self.undo.push(
                    Past { rows: self.rows, cursor: (row as usize, col as usize) },
                ),
                vim: Vim { mode: Mode::Normal, ..self.vim },
                ..self.with_rows(past.rows)
            };
            e.cursor_at(past.cursor.0 as int, past.cursor.1 as int)
        }
    }
}

/// Redo goes back to the text that undo left, and undo to the one that redo
/// left.
pub proof fn undo_and_redo_are_inverse(e: Edit)
    ensures
        e.undo.len() > 0 ==> e.undone().redone().rows == e.rows && e.undone().redone().undo
            == e.undo.drop_last().push(
            Past {
                rows: e.undo.last().rows,
                cursor: (e.undone().cursor_rc().0 as usize, e.undone().cursor_rc().1 as usize),
            },
        ) && e.undone().redone().redo == e.redo,
        e.redo.len() > 0 ==> e.redone().undone().rows == e.rows && e.redone().undone().undo
            == e.undo,
{
    if e.undo.len() > 0 {
        let (row, col) = e.cursor_rc();
        let past = Past { rows: e.rows, cursor: (row as usize, col as usize) };
        assert(e.redo.push(past).drop_last() =~= e.redo);
    }
    if e.redo.len() > 0 {
        let (row, col) = e.cursor_rc();
        let past = Past { rows: e.rows, cursor: (row as usize, col as usize) };
        assert(e.undo.push(past).drop_last() =~= e.undo);
    }
}

/// A box for one line never shows a second one after a flush.
pub proof fn one_line_stays_one_line(e: Edit, before: u64)
    requires
        e.single_line,
    ensures
        e.flushed(before).rows.len() <= 1,
{
}

/// What a group started from comes back with one undo.
pub proof fn one_undo_takes_back_a_group(e: Edit, before: u64)
    requires
        !e.single_line,
        !e.vim.mode.inserting(),
        e.host.snapshot is Some,
        (e.host.snapshot->0).0 != e.rows,
    ensures
        e.flushed(before).undone().rows == (e.host.snapshot->0).0,
{
    let f = e.noticed(before).group_kept();
    assert(f.undo.last().rows == (e.host.snapshot->0).0);
    assert(f.reported().undo == f.undo);
    assert(f.reported().settled().undo == f.undo);
}

// ---- text ----------------------------------------------------------------------------------------

/// Lines joined by a character.
fn join_rows(lines: &Vec<String>, c: char) -> (s: String)
    ensures
        s@ == joined_by(texts_of(lines@), c),
{
    let ghost all = texts_of(lines@);
    let mut s = String::new();
    let mut i: usize = 0;
    proof {
        assert(all.take(0) =~= Seq::empty());
        assert(s@ =~= Seq::empty());
    }
    while i < lines.len()
        invariant
            i <= lines.len(),
            all == texts_of(lines@),
            s@ == joined_by(all.take(i as int), c),
        decreases lines.len() - i,
    {
        proof {
            assert(all[i as int] == lines@[i as int]@);
            assert(all.take(i + 1).drop_last() =~= all.take(i as int));
            assert(all.take(i + 1).last() == all[i as int]);
        }
        if i > 0 {
            s.push(c);
        }
        s.push_str(lines[i].as_str());
        i = i + 1;
        proof {
            assert(s@ =~= joined_by(all.take(i as int), c));
        }
    }
    proof {
        assert(all.take(i as int) =~= all);
    }
    s
}

proof fn lemma_joined_by_newlines(lines: Seq<Seq<char>>)
    ensures
        joined_by(lines, '\n') == joined(lines),
    decreases lines.len(),
{
    if lines.len() > 1 {
        lemma_joined_by_newlines(lines.drop_last());
    }
}

/// Length of the joined lines in bytes.
fn rows_size(lines: &Vec<String>) -> (n: usize)
    ensures
        n == cells(joined(texts_of(lines@))).len(),
{
    proof {
        lemma_joined_by_newlines(texts_of(lines@));
    }
    byte_len(join_rows(lines, '\n').as_str())
}

fn one_line(text: &str) -> (s: String)
    ensures
        s@ == on_one_line(text@),
{
    let chars = chars_of(text);
    let mut s = String::new();
    let mut i: usize = 0;
    proof {
        assert(s@ =~= on_one_line(text@).take(0));
    }
    while i < chars.len()
        invariant
            i <= chars.len(),
            chars@ == text@,
            s@ == on_one_line(text@).take(i as int),
        decreases chars.len() - i,
    {
        let c = chars[i];
        s.push(
            if c == '\n' || c == '\r' {
                ' '
            } else {
                c
            },
        );
        i = i + 1;
        proof {
            assert(s@ =~= on_one_line(text@).take(i as int));
        }
    }
    proof {
        assert(on_one_line(text@).take(i as int) =~= on_one_line(text@));
    }
    s
}

/// A list of one line.
fn single(line: String) -> (v: Vec<String>)
    ensures
        texts_of(v@) == seq![line@],
        rows_fit(texts_of(v@)),
{
    let size = byte_len(line.as_str());
    let ghost text = line@;
    let mut v: Vec<String> = Vec::new();
    v.push(line);
    proof {
        assert(texts_of(v@) =~= seq![text]);
        assert(joined(seq![text]) == text);
    }
    v
}

fn copy_rows(lines: &Vec<String>) -> (v: Vec<String>)
    ensures
        texts_of(v@) == texts_of(lines@),
{
    let mut v: Vec<String> = Vec::new();
    let mut i: usize = 0;
    while i < lines.len()
        invariant
            i <= lines.len(),
            texts_of(v@) == texts_of(lines@).take(i as int),
        decreases lines.len() - i,
    {
        let ghost before = v@;
        let line = copy_str(lines[i].as_str());
        let ghost one = line@;
        v.push(line);
        proof {
            assert(texts_of(v@) =~= texts_of(before).push(one));
            assert(texts_of(lines@).take(i + 1) =~= texts_of(lines@).take(i as int).push(one));
        }
        i = i + 1;
    }
    proof {
        assert(texts_of(lines@).take(i as int) =~= texts_of(lines@));
    }
    v
}

fn same_rows(a: &Vec<String>, b: &Vec<String>) -> (r: bool)
    ensures
        r == (texts_of(a@) == texts_of(b@)),
{
    proof {
        assert(texts_of(a@).len() == a@.len());
        assert(texts_of(b@).len() == b@.len());
    }
    if a.len() != b.len() {
        return false;
    }
    let mut i: usize = 0;
    while i < a.len()
        invariant
            a.len() == b.len(),
            i <= a.len(),
            forall|k: int| 0 <= k < i ==> texts_of(a@)[k] == texts_of(b@)[k],
        decreases a.len() - i,
    {
        proof {
            assert(texts_of(a@)[i as int] == a@[i as int]@);
            assert(texts_of(b@)[i as int] == b@[i as int]@);
        }
        if !same_str(a[i].as_str(), b[i].as_str()) {
            return false;
        }
        i = i + 1;
    }
    proof {
        assert(texts_of(a@) =~= texts_of(b@));
    }
    true
}

impl VimEdit {
    pub fn new(single_line: bool, password: bool, label: &'static str) -> (e: Self)
        ensures
            e@ == (Edit {
                single_line,
                password,
                rows: seq![Seq::empty()],
                edition: 1,
                host: nothing_pending(),
                vim: new_vim(),
                undo: Seq::empty(),
                redo: Seq::empty(),
                marked: None,
                visible_rows: if single_line {
                    1
                } else {
                    12
                },
                modified: false,
                label: label@,
                events: Seq::empty(),
                selecting: false,
            }),
    {
        let mut storage = SharedLines::default();
        let line = String::new();
        proof {
            assert(line@ =~= Seq::empty());
        }
        storage.set(single(line));
        let e = VimEdit {
            single_line,
            password,
            buf: LinesBuf(storage),
            host: EditHost::new(),
            vim: VimState::new(),
            text_undo: Vec::new(),
            text_redo: Vec::new(),
            marked_range: None,
            visible_rows: if single_line {
                1
            } else {
                12
            },
            modified: false,
            label,
            pending_events: Vec::new(),
            mouse_selecting: false,
        };
        proof {
            assert(e@.undo =~= Seq::empty());
            assert(e@.redo =~= Seq::empty());
            assert(e@.events =~= Seq::empty());
        }
        e
    }

    pub fn text(&self) -> (s: String)
        ensures
            s@ == self@.text(),
    {
        join_rows(
            self.buf.0.get(),
            if self.single_line {
                ' '
            } else {
                '\n'
            },
        )
    }

    /// Replace everything (cursor at 0, normal mode, no undo).
    pub fn set_text(&mut self, text: &str)
        ensures
            final(self)@ == (Edit {
                vim: new_vim(),
                modified: false,
                undo: Seq::empty(),
                redo: Seq::empty(),
                ..old(self)@.with_rows(
                    if old(self)@.single_line {
                        seq![on_one_line(text@)]
                    } else {
                        split_at(text@, '\n')
                    },
                )
            }),
    {
        let lines = if self.single_line {
            single(one_line(text))
        } else {
            rows_of(text)
        };
        self.buf.0.set(lines);
        self.vim = VimState::new();
        self.modified = false;
        self.text_undo = Vec::new();
        self.text_redo = Vec::new();
        proof {
            assert(self@.undo =~= Seq::empty());
            assert(self@.redo =~= Seq::empty());
        }
    }

    pub fn drain_events(&mut self) -> (v: Vec<VimEditEvent>)
        ensures
            events(v@) == old(self)@.events,
            final(self)@ == (Edit { events: Seq::empty(), ..old(self)@ }),
    {
        let mut v: Vec<VimEditEvent> = Vec::new();
        std::mem::swap(&mut v, &mut self.pending_events);
        proof {
            assert(self@.events =~= Seq::empty());
        }
        v
    }

    pub fn is_inserting(&self) -> (b: bool)
        ensures
            b == self@.vim.mode.inserting(),
    {
        self.vim.mode.is_inserting()
    }

    pub fn mode_label(&self) -> (s: &'static str)
        ensures
            s@ == match self@.vim.mode {
                Mode::Insert => "INSERT"@,
                Mode::Replace => "REPLACE"@,
                Mode::Visual { kind } => if kind == VisualKind::Line {
                    "V-LINE"@
                } else {
                    "VISUAL"@
                },
                _ => ""@,
            },
    {
        match self.vim.mode {
            Mode::Insert => "INSERT",
            Mode::Replace => "REPLACE",
            Mode::Visual { kind } => if kind == VisualKind::Line {
                "V-LINE"
            } else {
                "VISUAL"
            },
            _ => "",
        }
    }

    pub fn showcmd(&self) -> (s: String)
        ensures
            s@ == if self@.vim.options.showcmd {
                self@.vim.pending_text()
            } else {
                Seq::empty()
            },
    {
        self.vim.showcmd()
    }

    pub fn cursor_offset(&self) -> (o: usize)
        ensures
            o == self@.vim.cursor.offset,
    {
        self.vim.cursor.offset
    }

    pub fn mode(&self) -> (m: Mode)
        ensures
            m == self@.vim.mode,
    {
        self.vim.mode
    }

    pub fn set_password(&mut self, on: bool)
        ensures
            final(self)@ == (Edit { password: on, ..old(self)@ }),
    {
        self.password = on;
    }

    // ---- flushing --------------------------------------------------------------------------------

    fn notice(&mut self, before: u64)
        ensures
            final(self)@ == old(self)@.noticed(before),
    {
        if self.buf.0.version() != before {
            self.modified = true;
            let ghost seen = self.pending_events@;
            self.pending_events.push(VimEditEvent::Changed);
            proof {
                assert(events(self.pending_events@) =~= events(seen).push(Event::Changed));
            }
        }
    }

    fn remember(&mut self, lines: Vec<String>, offset: usize)
        ensures
            final(self)@ == old(self)@.remembering(texts_of(lines@), offset),
    {
        if same_rows(&lines, self.buf.0.get()) {
            return;
        }
        let cursor = offset_rc(lines.as_slice(), offset);
        let memo = Memo { lines, cursor };
        let ghost past = memo@;
        let ghost kept = self.text_undo@;
        self.text_undo.push(memo);
        self.text_redo = Vec::new();
        proof {
            assert(pasts(self.text_undo@) =~= pasts(kept).push(past));
            assert(pasts(self.text_redo@) =~= Seq::empty());
        }
    }

    fn keep_group(&mut self)
        ensures
            final(self)@ == old(self)@.group_kept(),
    {
        if self.vim.mode.is_inserting() {
            return;
        }
        if let Some((lines, offset)) = self.host.take_group_snapshot() {
            self.remember(lines, offset);
        }
    }

    fn report_status(&mut self)
        ensures
            final(self)@ == (Edit {
                events: match old(self)@.host.status {
                    Some(s) => old(self)@.events.push(Event::Status(s)),
                    None => old(self)@.events,
                },
                host: Pending { status: None, ..old(self)@.host },
                ..old(self)@
            }),
    {
        let ghost seen = self.pending_events@;
        if let Some(msg) = self.host.pending_status.take() {
            let ghost text = msg@;
            self.pending_events.push(VimEditEvent::Status(msg));
            proof {
                assert(events(self.pending_events@) =~= events(seen).push(Event::Status(text)));
            }
        }
    }

    fn report_requests(&mut self)
        ensures
            final(self)@ == ({
                let save = if old(self)@.host.save {
                    old(self)@.events.push(Event::Save)
                } else {
                    old(self)@.events
                };
                Edit {
                    events: if old(self)@.host.close {
                        save.push(Event::Close)
                    } else {
                        save
                    },
                    host: Pending { save: false, close: false, ..old(self)@.host },
                    ..old(self)@
                }
            }),
    {
        if self.host.save_requested {
            self.host.save_requested = false;
            let ghost seen = self.pending_events@;
            self.pending_events.push(VimEditEvent::Save);
            proof {
                assert(events(self.pending_events@) =~= events(seen).push(Event::Save));
            }
        }
        if self.host.close_requested {
            self.host.close_requested = false;
            let ghost seen = self.pending_events@;
            self.pending_events.push(VimEditEvent::Close);
            proof {
                assert(events(self.pending_events@) =~= events(seen).push(Event::Close));
            }
        }
    }

    fn take_copied(&mut self) -> (r: Option<String>)
        ensures
            text_of(r) == old(self)@.host.copied,
            final(self)@ == (Edit {
                host: Pending {
                    clip: match old(self)@.host.copied {
                        Some(s) => Some(s),
                        None => old(self)@.host.clip,
                    },
                    copied: None,
                    ..old(self)@.host
                },
                ..old(self)@
            }),
    {
        match self.host.pending_clipboard.take() {
            Some(text) => {
                self.host.clipboard = Some(copy_str(text.as_str()));
                Some(text)
            },
            None => None,
        }
    }

    fn clamp_engine(&mut self)
        ensures
            final(self)@ == (Edit {
                vim: old(self)@.vim.at(
                    old(self)@.doc().clamp(
                        min(old(self)@.vim.cursor.offset as int, old(self)@.doc().len()),
                    ),
                ),
                ..old(self)@
            }),
    {
        let n = self.buf.len();
        let o = self.vim.cursor.offset;
        let at = clamp_to_line_end(
            &self.buf,
            if o <= n {
                o
            } else {
                n
            },
        );
        self.vim.set_offset(at);
    }

    fn collapse_single_line(&mut self)
        ensures
            final(self)@ == old(self)@.collapsed(),
    {
        proof {
            assert(self@.rows.len() == self.buf.0.rows().len());
        }
        if self.buf.0.get().len() > 1 {
            let line = join_rows(self.buf.0.get(), ' ');
            self.buf.0.set(single(line));
            let n = self.buf.len();
            let o = self.vim.cursor.offset;
            self.vim.set_offset(
                if o <= n {
                    o
                } else {
                    n
                },
            );
        }
    }

    /// Brings the cursor back into its line, and a box of one line back onto
    /// one line.
    pub fn settle(&mut self)
        ensures
            final(self)@ == old(self)@.settled(),
    {
        self.clamp_engine();
        if self.single_line {
            self.collapse_single_line();
        }
    }

    /// Turns what the engine and its host collected since the lines were in
    /// edition `before` into events, undo steps and effects.
    pub fn flush(&mut self, before: u64) -> (effects: Effects)
        ensures
            final(self)@ == old(self)@.flushed(before),
            text_of(effects.clipboard) == old(self)@.host.copied,
            effects.scroll == old(self)@.host.scroll,
    {
        self.notice(before);
        self.keep_group();
        let ghost kept = self@;
        let clipboard = self.take_copied();
        self.report_status();
        self.report_requests();
        let scroll = self.host.scroll_request.take();
        proof {
            assert(self@ == kept.reported());
        }
        self.settle();
        Effects { clipboard, scroll }
    }

    // ---- undo ------------------------------------------------------------------------------------

    fn here(&self) -> (m: Memo)
        ensures
            m@ == (Past {
                rows: self@.rows,
                cursor: (self@.cursor_rc().0 as usize, self@.cursor_rc().1 as usize),
            }),
    {
        let lines = self.buf.0.get();
        let cursor = offset_rc(lines.as_slice(), self.vim.cursor.offset);
        Memo { lines: copy_rows(lines), cursor }
    }

    fn set_cursor_rc(&mut self, row: usize, col: usize)
        ensures
            final(self)@ == old(self)@.cursor_at(row as int, col as int),
    {
        let offset = rc_offset(self.buf.0.get().as_slice(), row, col);
        self.vim.cursor = Cursor { offset, desired_col: Some(col) };
    }

    fn restore(&mut self, memo: Memo)
        ensures
            final(self)@ == (Edit {
                vim: Vim { mode: Mode::Normal, ..old(self)@.vim },
                ..old(self)@.with_rows(memo@.rows)
            }).cursor_at(memo@.cursor.0 as int, memo@.cursor.1 as int),
    {
        let (row, col) = memo.cursor;
        let size = rows_size(&memo.lines);
        self.buf.0.set(memo.lines);
        self.vim.mode = Mode::Normal;
        self.set_cursor_rc(row, col);
    }

    /// Back to the text before the last change.
    pub fn undo(&mut self)
        ensures
            final(self)@ == old(self)@.undone(),
    {
        let ghost kept = self.text_undo@;
        let here = self.here();
        if let Some(memo) = self.text_undo.pop() {
            let ghost past = here@;
            let ghost gone = self.text_redo@;
            self.text_redo.push(here);
            proof {
                assert(pasts(self.text_redo@) =~= pasts(gone).push(past));
                assert(pasts(self.text_undo@) =~= pasts(kept).drop_last());
                assert(memo@ == pasts(kept).last());
            }
            self.restore(memo);
        } else {
            proof {
                assert(pasts(kept).len() == 0);
            }
        }
    }

    /// Back to the text before the last undo.
    pub fn redo(&mut self)
        ensures
            final(self)@ == old(self)@.redone(),
    {
        let ghost kept = self.text_redo@;
        let here = self.here();
        if let Some(memo) = self.text_redo.pop() {
            let ghost past = here@;
            let ghost gone = self.text_undo@;
            self.text_undo.push(here);
            proof {
                assert(pasts(self.text_undo@) =~= pasts(gone).push(past));
                assert(pasts(self.text_redo@) =~= pasts(kept).drop_last());
                assert(memo@ == pasts(kept).last());
            }
            self.restore(memo);
        } else {
            proof {
                assert(pasts(kept).len() == 0);
            }
        }
    }
}

// ---- keys ----------------------------------------------------------------------------------------

/// Who a key is for.
pub enum Route {
    /// The platform.
    Pass,
    Undo,
    Redo,
    Engine,
}

impl Edit {
    /// Chords of the platform are not for the box. `u` and `C-r` that start a
    /// command in normal mode are undo and redo; `u` inside a command
    /// (`gu`, `guu`) is the engine's.
    pub open spec fn route(self, platform: bool, key: Stroke) -> Route {
        if platform {
            Route::Pass
        } else if self.vim.mode == Mode::Normal && self.vim.idle() && key.kind == Kind::Char('u')
            && !key.modifiers.control {
            Route::Undo
        } else if self.vim.mode == Mode::Normal && self.vim.idle() && key.kind == Kind::Char('r')
            && key.modifiers.control {
            Route::Redo
        } else {
            Route::Engine
        }
    }

    /// What the engine can learn from the box.
    pub open spec fn env(self) -> Env {
        Env { seen: self.host.viewport, clip: self.host.clip }
    }

    /// The box with the viewport that it reports.
    pub open spec fn seen(self) -> Edit {
        Edit {
            host: Pending {
                viewport: (0, max(self.visible_rows - 1, 0) as usize),
                ..self.host
            },
            ..self
        }
    }

    /// A key run through the engine; a character that the engine leaves to
    /// its host while inserting goes into the text.
    pub open spec fn ran(self, key: Stroke, moments: Seq<Moment>) -> World {
        let (w, r) = self.world().handle_key::<LinesBuf>(key, moments);
        match key.printable() {
            Some(c) => if r == KeyResult::Unknown && w.vim.mode.inserting() {
                w.type_text::<LinesBuf>(seq![c])
            } else {
                w
            },
            None => w,
        }
    }

    /// `self` is what the engine can make of `e` on a key.
    pub open spec fn follows(self, e: Edit, key: Stroke, moments: Seq<Moment>) -> bool {
        &&& self.framed(e)
        &&& self.world() == e.ran(key, moments)
        &&& all_alike(moments, e.env())
    }
}

impl VimEdit {
    fn report_viewport(&mut self)
        ensures
            final(self)@ == old(self)@.seen(),
    {
        let last: usize = if self.visible_rows > 0 {
            self.visible_rows - 1
        } else {
            0
        };
        self.host.viewport = (0, last);
    }

    fn run_key(&mut self, key: Key) -> (seen: Ghost<Seq<Moment>>)
        ensures
            final(self)@.follows(old(self)@, key@, seen@),
    {
        let ghost e = self@;
        let ghost host = self.host;
        let ghost stroke = key@;
        let printable = key.printable_char();
        let result = {
            let mut ctx = Ctx { buf: &mut self.buf, host: &mut self.host };
            self.vim.handle_key(&mut ctx, key)
        };
        let ghost w = self@.world();
        let ghost moments = choose|moments: Seq<Moment>|
            e.world().shows::<LinesBuf, EditHost>(stroke, host, moments) && (w, result)
                == #[trigger] e.world().handle_key::<LinesBuf>(stroke, moments);
        if let Some(c) = printable {
            if result == KeyResult::Unknown && self.vim.mode.is_inserting() {
                let mut text = String::new();
                text.push(c);
                proof {
                    assert(text@ =~= seq![c]);
                }
                let mut ctx = Ctx { buf: &mut self.buf, host: &mut self.host };
                self.vim.insert_text_at_cursor(&mut ctx, text.as_str());
            }
        }
        proof {
            told_is_heard(self.host, self.vim@.told, host, e.vim.told);
            a_box_is_steady();
            what_is_shown_is_seen::<LinesBuf, EditHost>(e.world(), stroke, host, moments);
        }
        Ghost(moments)
    }

    /// One key from the host's router. `None` when it is not for the box.
    pub fn process_key(&mut self, ks: &Keystroke) -> (r: Option<Effects>)
        ensures
            match old(self)@.route(
                ks.modifiers.platform || ks.function,
                Stroke {
                    modifiers: ks.modifiers,
                    kind: core_key(ks.modifiers, ks.key@, text_of(ks.key_char)),
                },
            ) {
                Route::Pass => r is None && final(self)@ == old(self)@,
                Route::Undo => r is Some && final(self)@ == old(self)@.undone()
                    && r->0.clipboard is None && r->0.scroll is None,
                Route::Redo => r is Some && final(self)@ == old(self)@.redone()
                    && r->0.clipboard is None && r->0.scroll is None,
                Route::Engine => r is Some && exists|mid: Edit, moments: Seq<Moment>|
                    #[trigger] mid.follows(
                        old(self)@.seen(),
                        Stroke {
                            modifiers: ks.modifiers,
                            kind: core_key(ks.modifiers, ks.key@, text_of(ks.key_char)),
                        },
                        moments,
                    ) && final(self)@ == mid.flushed(old(self)@.edition) && text_of(
                        r->0.clipboard,
                    ) == mid.host.copied && r->0.scroll == mid.host.scroll,
            },
    {
        if ks.modifiers.platform || ks.function {
            return None;
        }
        let key = to_core_key(ks);
        // `u` behind `gu`, or the last key of `guu`, belongs to a pending
        // command: only an idle engine leaves it to the box
        if self.vim.mode == Mode::Normal && self.vim.is_idle() {
            if let KeyKind::Char(c) = &key.kind {
                if *c == 'u' && !key.modifiers.control {
                    self.undo();
                    return Some(Effects { clipboard: None, scroll: None });
                }
                if *c == 'r' && key.modifiers.control {
                    self.redo();
                    return Some(Effects { clipboard: None, scroll: None });
                }
            }
        }
        let before = self.buf.0.version();
        self.report_viewport();
        let ghost e = self@;
        let ghost stroke = key@;
        let Ghost(moments) = self.run_key(key);
        let ghost mid = self@;
        proof {
            assert(mid.follows(e, stroke, moments));
        }
        let effects = self.flush(before);
        Some(effects)
    }
}

// ---- splicing ------------------------------------------------------------------------------------

impl Edit {
    /// The bytes between two offsets, in either order and rounded out to
    /// whole characters, replaced; the cursor behind the new text, in insert
    /// mode.
    pub open spec fn spliced(self, x: int, y: int, s: Seq<char>) -> Edit {
        let d = self.doc();
        let a = floor_in(d.cells, min(min(x, d.len()), min(y, d.len())));
        let b = ceil_in(d.cells, max(min(x, d.len()), min(y, d.len())));
        let e = self.with_rows(
            split_at(chars_in(crate::doc::splice(d.cells, a, b, cells(s))), '\n'),
        );
        let f = Edit {
            vim: Vim {
                mode: Mode::Insert,
                cursor: Cursor {
                    offset: min(min(a + cells(s).len(), usize::MAX as int), e.doc().len()) as usize,
                    desired_col: None,
                },
                ..self.vim
            },
            modified: true,
            ..e
        };
        if self.single_line {
            f.collapsed()
        } else {
            f
        }
    }
}

impl VimEdit {
    /// Replace a byte range with `s` and put the cursor behind it, for
    /// completions. Enters insert mode; the engine's command pipeline is not
    /// involved.
    pub fn splice_range(&mut self, range: Range<usize>, s: &str)
        ensures
            final(self)@ == old(self)@.spliced(range.start as int, range.end as int, s@),
    {
        let t = self.buf.cells();
        let n = t.len();
        let x = if range.start <= n {
            range.start
        } else {
            n
        };
        let y = if range.end <= n {
            range.end
        } else {
            n
        };
        let (lo, hi) = if x <= y {
            (x, y)
        } else {
            (y, x)
        };
        let a = floor_at(&t, lo);
        let b = ceil_at(&t, hi);
        self.buf.put(&t, a, b, s);
        let size = self.buf.len();
        let end = plus(a, byte_len(s));
        self.type_at(
            if end <= size {
                end
            } else {
                size
            },
        );
        if self.single_line {
            self.collapse_single_line();
        }
    }

    fn type_at(&mut self, offset: usize)
        ensures
            final(self)@ == (Edit {
                vim: Vim {
                    mode: Mode::Insert,
                    cursor: Cursor { offset, desired_col: None },
                    ..old(self)@.vim
                },
                modified: true,
                ..old(self)@
            }),
    {
        self.vim.mode = Mode::Insert;
        self.vim.cursor = Cursor { offset, desired_col: None };
        self.modified = true;
    }
}

// ---- what is shown -------------------------------------------------------------------------------

/// Columns that the first `col` characters of a line take up; a control
/// character takes up none.
pub open spec fn columns_before(line: Seq<char>, col: int) -> int
    decreases col,
{
    if col <= 0 {
        0
    } else {
        let w = match columns(line[col - 1]) {
            Some(w) => w as int,
            None => 0,
        };
        min(columns_before(line, col - 1) + w, usize::MAX as int)
    }
}

/// The display column of the character at `col` of a line.
pub fn display_width_before(line: &str, col: usize) -> (w: usize)
    ensures
        w == columns_before(line@, min(col as int, line@.len() as int)),
{
    let chars = chars_of(line);
    let stop: usize = if col <= chars.len() {
        col
    } else {
        chars.len()
    };
    let mut w: usize = 0;
    let mut i: usize = 0;
    while i < stop
        invariant
            i <= stop <= chars.len(),
            chars@ == line@,
            w == columns_before(line@, i as int),
        decreases stop - i,
    {
        let one = match char_columns(chars[i]) {
            Some(n) => n,
            None => 0,
        };
        w = plus(w, one);
        i = i + 1;
    }
    w
}

impl Edit {
    /// How many characters a row holds.
    pub open spec fn row_len(self, row: int) -> int {
        if 0 <= row < self.rows.len() {
            self.rows[row].len() as int
        } else {
            0
        }
    }

    /// The columns of a row that the selection covers.
    pub open spec fn selection_span(self, row: int) -> Option<(int, int)> {
        match self.vim.selection() {
            Some((anchor, cursor, kind)) => {
                let a = rc_of(self.rows, anchor as int);
                let c = rc_of(self.rows, cursor as int);
                let top = min(a.0, c.0);
                let bottom = max(a.0, c.0);
                if row < top || row > bottom {
                    None
                } else {
                    match kind {
                        VisualKind::Line => Some((0, self.row_len(row))),
                        VisualKind::Char => {
                            let (lo, hi) = if a.0 < c.0 || (a.0 == c.0 && a.1 <= c.1) {
                                (a, c)
                            } else {
                                (c, a)
                            };
                            let len = self.row_len(row);
                            let from = if row == lo.0 {
                                lo.1
                            } else {
                                0
                            };
                            let to = if row == hi.0 {
                                hi.1 + 1
                            } else {
                                len + 1
                            };
                            Some((from, min(to, max(len, from))))
                        },
                        VisualKind::Block => Some(
                            (min(a.1, c.1), min(max(a.1, c.1) + 1, usize::MAX as int)),
                        ),
                    }
                }
            },
            None => None,
        }
    }

    /// Row and columns of a search hit; at least one column.
    pub open spec fn hit_span(self, hit: (usize, usize)) -> (int, int, int) {
        let (row, col) = rc_of(self.rows, hit.0 as int);
        let (row2, col2) = rc_of(self.rows, hit.1 as int);
        let end = if row2 == row {
            col2
        } else {
            self.row_len(row)
        };
        (row, col, max(end, min(col + 1, usize::MAX as int)))
    }

    /// A hit that starts at this row and column is the current one.
    pub open spec fn is_current(self, row: int, col: int) -> bool {
        self.host.current matches Some(hit) && rc_of(self.rows, hit.0 as int) == (row, col)
    }

    /// The columns of those of the first `n` hits that start on a row, and
    /// whether each is the current one.
    pub open spec fn hits_on(self, row: int, n: nat) -> Seq<(int, int, bool)>
        decreases n,
    {
        if n == 0 {
            Seq::empty()
        } else {
            let before = self.hits_on(row, (n - 1) as nat);
            let (at, from, to) = self.hit_span(self.host.highlights[n - 1]);
            if at == row {
                before.push((from, to, self.is_current(row, from)))
            } else {
                before
            }
        }
    }

    /// The rows to paint: all of them as long as nothing was measured, else
    /// those from `first` on that are seen and one more.
    pub open spec fn window(self, first: int, seen: Option<usize>) -> (int, int) {
        let total = self.rows.len() as int;
        if self.single_line {
            (0, min(1, total))
        } else {
            match seen {
                Some(n) => (min(first, total), min(min(first, total) + n + 1, total)),
                None => (0, total),
            }
        }
    }

    /// The caret on a row: its column and the character under it. A box
    /// without the focus shows none.
    pub open spec fn caret_on(self, row: int, focused: bool) -> Option<(int, Option<char>)> {
        let (at, col) = self.cursor_rc();
        if focused && at == row && row < self.rows.len() {
            Some(
                (
                    col,
                    if col < self.rows[row].len() {
                        Some(self.rows[row][col])
                    } else {
                        None
                    },
                ),
            )
        } else {
            None
        }
    }
}

/// The caret of a row.
pub struct RowCaret {
    pub col: usize,
    /// A block over the character; else a bar in front of it.
    pub block: bool,
    pub under: Option<char>,
}

/// Hits as columns and whether they are the current one.
pub open spec fn marked_columns(v: Seq<(usize, usize, bool)>) -> Seq<(int, int, bool)> {
    v.map_values(|h: (usize, usize, bool)| (h.0 as int, h.1 as int, h.2))
}

impl VimEdit {
    fn row_len(&self, row: usize) -> (n: usize)
        ensures
            n == self@.row_len(row as int),
    {
        let lines = self.buf.0.get();
        if row < lines.len() {
            proof {
                assert(texts_of(lines@)[row as int] == lines@[row as int]@);
            }
            chars_of(lines[row].as_str()).len()
        } else {
            0
        }
    }

    /// The columns of a row that the selection covers, for painting it.
    pub fn selection_span(&self, row: usize) -> (r: Option<(usize, usize)>)
        ensures
            r is Some == self@.selection_span(row as int) is Some,
            r matches Some((from, to)) ==> self@.selection_span(row as int) == Some(
                (from as int, to as int),
            ),
    {
        let (anchor, cursor, kind) = match self.vim.visual_selection() {
            Some(s) => s,
            None => {
                return None;
            },
        };
        let lines = self.buf.0.get().as_slice();
        let a = offset_rc(lines, anchor);
        let c = offset_rc(lines, cursor);
        let (top, bottom) = if a.0 <= c.0 {
            (a.0, c.0)
        } else {
            (c.0, a.0)
        };
        if row < top || row > bottom {
            return None;
        }
        let len = self.row_len(row);
        match kind {
            VisualKind::Line => Some((0, len)),
            VisualKind::Char => {
                let (lo, hi) = if a.0 < c.0 || (a.0 == c.0 && a.1 <= c.1) {
                    (a, c)
                } else {
                    (c, a)
                };
                let from = if row == lo.0 {
                    lo.1
                } else {
                    0
                };
                let to = if row == hi.0 {
                    plus(hi.1, 1)
                } else {
                    plus(len, 1)
                };
                let most = if len >= from {
                    len
                } else {
                    from
                };
                Some(
                    (
                        from,
                        if to <= most {
                            to
                        } else {
                            most
                        },
                    ),
                )
            },
            VisualKind::Block => if a.1 <= c.1 {
                Some((a.1, plus(c.1, 1)))
            } else {
                Some((c.1, plus(a.1, 1)))
            },
        }
    }

    /// Row and columns of a search hit, for painting it.
    pub fn hit_span(&self, hit: &Range<usize>) -> (r: (usize, usize, usize))
        ensures
            (r.0 as int, r.1 as int, r.2 as int) == self@.hit_span((hit.start, hit.end)),
    {
        let lines = self.buf.0.get().as_slice();
        let (row, col) = offset_rc(lines, hit.start);
        let (row2, col2) = offset_rc(lines, hit.end);
        let end = if row2 == row {
            col2
        } else {
            self.row_len(row)
        };
        let least = plus(col, 1);
        (
            row,
            col,
            if end >= least {
                end
            } else {
                least
            },
        )
    }

    fn starts_current(&self, row: usize, col: usize) -> (b: bool)
        ensures
            b == self@.is_current(row as int, col as int),
    {
        match &self.host.current_highlight {
            Some(hit) => {
                let (r, c) = offset_rc(self.buf.0.get().as_slice(), hit.start);
                r == row && c == col
            },
            None => false,
        }
    }

    /// The hits to paint on a row: their columns, and whether each is the
    /// current one.
    pub fn row_hits(&self, row: usize) -> (r: Vec<(usize, usize, bool)>)
        ensures
            marked_columns(r@) == self@.hits_on(row as int, self@.host.highlights.len()),
    {
        let mut r: Vec<(usize, usize, bool)> = Vec::new();
        let mut i: usize = 0;
        proof {
            assert(marked_columns(r@) =~= Seq::empty());
            assert(self@.host.highlights.len() == self.host.highlights@.len());
        }
        while i < self.host.highlights.len()
            invariant
                i <= self.host.highlights@.len(),
                self@.host.highlights.len() == self.host.highlights@.len(),
                marked_columns(r@) == self@.hits_on(row as int, i as nat),
            decreases self.host.highlights@.len() - i,
        {
            let (at, from, to) = self.hit_span(&self.host.highlights[i]);
            let ghost before = r@;
            if at == row {
                let current = self.starts_current(row, from);
                r.push((from, to, current));
                proof {
                    assert(marked_columns(r@) =~= marked_columns(before).push(
                        (from as int, to as int, current),
                    ));
                }
            }
            i = i + 1;
        }
        r
    }

    /// The rows to paint, from the first one that shows and how many rows are
    /// seen at once.
    pub fn rows_to_paint(&self, first: usize, seen: Option<usize>) -> (r: Range<usize>)
        ensures
            (r.start as int, r.end as int) == self@.window(first as int, seen),
    {
        let lines = self.buf.0.get();
        proof {
            assert(texts_of(lines@).len() == lines@.len());
        }
        let total = lines.len();
        if self.single_line {
            return 0..(if total < 1 {
                total
            } else {
                1
            });
        }
        match seen {
            Some(n) => {
                let from = if first < total {
                    first
                } else {
                    total
                };
                let left = total - from;
                from..(if n < left {
                    from + n + 1
                } else {
                    total
                })
            },
            None => 0..total,
        }
    }

    /// The caret to paint on a row.
    pub fn row_caret(&self, row: usize, focused: bool) -> (r: Option<RowCaret>)
        ensures
            r is Some == self@.caret_on(row as int, focused) is Some,
            r matches Some(c) ==> self@.caret_on(row as int, focused) == Some(
                (c.col as int, c.under),
            ) && c.block == !self@.vim.mode.inserting(),
    {
        let lines = self.buf.0.get();
        proof {
            assert(texts_of(lines@).len() == lines@.len());
        }
        if !focused || row >= lines.len() {
            return None;
        }
        let (at, col) = offset_rc(lines.as_slice(), self.vim.cursor_offset());
        if at != row {
            return None;
        }
        proof {
            assert(texts_of(lines@)[row as int] == lines@[row as int]@);
        }
        let chars = chars_of(lines[row].as_str());
        let under = if col < chars.len() {
            Some(chars[col])
        } else {
            None
        };
        Some(RowCaret { col, block: self.vim.cursor_is_block(), under })
    }

    /// A row as it is shown: a password box shows bullets.
    pub fn shown_row(&self, row: usize) -> (r: Option<String>)
        ensures
            text_of(r) == if row < self@.rows.len() {
                Some(
                    if self@.password {
                        Seq::new(self@.rows[row as int].len(), |i: int| '•')
                    } else {
                        self@.rows[row as int]
                    },
                )
            } else {
                None
            },
    {
        let lines = self.buf.0.get();
        proof {
            assert(texts_of(lines@).len() == lines@.len());
        }
        if row >= lines.len() {
            return None;
        }
        let ghost text = self@.rows[row as int];
        proof {
            assert(text == lines@[row as int]@);
        }
        if !self.password {
            return Some(copy_str(lines[row].as_str()));
        }
        let n = chars_of(lines[row].as_str()).len();
        let mut s = String::new();
        let mut i: usize = 0;
        proof {
            assert(s@ =~= Seq::new(0, |i: int| '•'));
        }
        while i < n
            invariant
                i <= n,
                s@ == Seq::new(i as nat, |i: int| '•'),
            decreases n - i,
        {
            s.push('•');
            i = i + 1;
            proof {
                assert(s@ =~= Seq::new(i as nat, |i: int| '•'));
            }
        }
        Some(s)
    }
}

// ---- mouse ---------------------------------------------------------------------------------------

impl Edit {
    /// The cursor at an offset, by row and column.
    pub open spec fn placed(self, offset: int) -> Edit {
        let (row, col) = rc_of(self.rows, min(offset, self.doc().len()));
        self.cursor_at(row, col)
    }

    /// The drag over; back to normal mode where nothing was selected.
    pub open spec fn released(self) -> Edit {
        let e = Edit { selecting: false, ..self };
        let dragged = self.vim.selection() matches Some((a, c, _)) && a != c;
        if !self.selecting {
            self
        } else if dragged {
            e
        } else {
            Edit { vim: Vim { mode: Mode::Normal, ..self.vim }, ..e }
        }
    }

    /// `self` is what `v` can make of `e`, with a drag under way.
    pub open spec fn starts_drag(self, e: Edit, moments: Seq<Moment>) -> bool {
        &&& self.framed(Edit { selecting: true, ..e })
        &&& self.world() == e.world().handle_key::<LinesBuf>(char_stroke('v'), moments).0
        &&& all_alike(moments, e.env())
    }
}

impl VimEdit {
    /// The offset at a row and column, or the nearest one in the text.
    pub fn offset_at(&self, row: usize, col: usize) -> (o: Option<usize>)
        ensures
            o is Some == (self@.rows.len() > 0),
            o matches Some(v) ==> v == offset_of(
                self@.rows,
                min(row as int, self@.rows.len() - 1),
                col as int,
            ),
    {
        let lines = self.buf.0.get();
        proof {
            assert(texts_of(lines@).len() == lines@.len());
        }
        if lines.len() == 0 {
            return None;
        }
        let last = lines.len() - 1;
        Some(
            rc_offset(
                lines.as_slice(),
                if row <= last {
                    row
                } else {
                    last
                },
                col,
            ),
        )
    }

    fn place_cursor(&mut self, offset: usize)
        ensures
            final(self)@ == old(self)@.placed(offset as int),
    {
        let n = self.buf.len();
        let (row, col) = offset_rc(
            self.buf.0.get().as_slice(),
            if offset <= n {
                offset
            } else {
                n
            },
        );
        self.set_cursor_rc(row, col);
    }

    /// Press: the cursor goes to the offset; outside insert mode a drag
    /// selection starts.
    pub fn mouse_down(&mut self, at: Option<usize>)
        ensures
            match at {
                None => final(self)@ == old(self)@,
                Some(o) => if old(self)@.vim.mode.inserting() {
                    final(self)@ == old(self)@.placed(o as int)
                } else {
                    exists|moments: Seq<Moment>| #[trigger] final(self)@.starts_drag(
                        old(self)@.placed(o as int).seen(),
                        moments,
                    )
                },
            },
    {
        let o = match at {
            Some(o) => o,
            None => {
                return ;
            },
        };
        if self.vim.mode.is_inserting() {
            self.place_cursor(o);
            return ;
        }
        self.place_cursor(o);
        self.report_viewport();
        let ghost e = self@;
        let ghost host = self.host;
        {
            let mut ctx = Ctx { buf: &mut self.buf, host: &mut self.host };
            self.vim.handle_key(&mut ctx, Key::char('v'));
        }
        let ghost w = self@.world();
        self.mouse_selecting = true;
        proof {
            let moments = choose|moments: Seq<Moment>|
                e.world().shows::<LinesBuf, EditHost>(char_stroke('v'), host, moments) && w
                    == (#[trigger] e.world().handle_key::<LinesBuf>(char_stroke('v'), moments)).0;
            a_box_is_steady();
            what_is_shown_is_seen::<LinesBuf, EditHost>(
                e.world(),
                char_stroke('v'),
                host,
                moments,
            );
            told_is_heard(self.host, self.vim@.told, host, e.vim.told);
            assert(self@.starts_drag(e, moments));
        }
    }

    /// Drag: the cursor follows; the engine's anchor keeps the other end.
    pub fn mouse_drag(&mut self, at: Option<usize>)
        ensures
            final(self)@ == match (old(self)@.selecting, at) {
                (true, Some(o)) => old(self)@.placed(o as int),
                _ => old(self)@,
            },
    {
        if self.mouse_selecting {
            if let Some(o) = at {
                self.place_cursor(o);
            }
        }
    }

    /// Release: the drag is over; a click without one returns to normal mode.
    pub fn mouse_up(&mut self)
        ensures
            final(self)@ == old(self)@.released(),
    {
        if !self.mouse_selecting {
            return ;
        }
        let dragged = match self.vim.visual_selection() {
            Some((a, c, _)) => a != c,
            None => false,
        };
        if dragged {
            self.end_drag();
        } else {
            self.end_drag();
            self.to_normal();
        }
    }

    fn end_drag(&mut self)
        ensures
            final(self)@ == (Edit { selecting: false, ..old(self)@ }),
    {
        self.mouse_selecting = false;
    }

    fn to_normal(&mut self)
        ensures
            final(self)@ == (Edit {
                vim: Vim { mode: Mode::Normal, ..old(self)@.vim },
                ..old(self)@
            }),
    {
        self.vim.mode = Mode::Normal;
    }
}

// ---- input methods -------------------------------------------------------------------------------

impl Edit {
    /// The UTF-16 offset of a byte offset.
    pub open spec fn utf16_of(self, byte: int) -> int {
        let d = self.doc();
        let b = min(byte, d.len());
        if d.at_boundary(b) {
            units_before(d.cells, b)
        } else {
            0
        }
    }

    /// The byte offset of a UTF-16 offset.
    pub open spec fn byte_of(self, utf16: int) -> int {
        byte_at_units(self.doc().cells, utf16, 0)
    }
}

/// What a text that an input method hands over does.
pub enum Input {
    /// It replaces what was being composed.
    Commit(usize, usize),
    /// It replaces a range of the text, in insert mode.
    Replace(int, int),
    /// It is typed.
    Type,
    /// Nothing: a range may only be replaced while inserting.
    Ignore,
}

impl Edit {
    pub open spec fn input(self, range: Option<(usize, usize)>, text: Seq<char>) -> Input {
        let explicit = match range {
            Some((a, b)) => if self.byte_of(a as int) < self.byte_of(b as int) {
                Some((self.byte_of(a as int), self.byte_of(b as int)))
            } else {
                None
            },
            None => None,
        };
        match (explicit, self.marked) {
            (Some((a, b)), _) => if self.vim.mode.inserting() {
                Input::Replace(a, b)
            } else {
                Input::Ignore
            },
            (None, Some((a, b))) => if text.len() > 0 && a < b {
                Input::Commit(a, b)
            } else {
                Input::Type
            },
            (None, None) => Input::Type,
        }
    }
}

impl VimEdit {
    /// The text between two UTF-16 offsets.
    pub fn text_for_range(&self, range: Range<usize>) -> (s: String)
        ensures
            s@ == LinesBuf::piece(
                self@.doc(),
                self@.byte_of(range.start as int),
                self@.byte_of(range.end as int),
            ),
    {
        let start = self.buf.utf16_to_byte(range.start);
        let end = self.buf.utf16_to_byte(range.end);
        self.buf.slice(start..end)
    }

    /// The selection, or the cursor, in UTF-16 offsets.
    pub fn selected_text_range(&self) -> (r: Range<usize>)
        ensures
            match self@.vim.selection() {
                Some((a, c, _)) => r.start == self@.utf16_of(min(a as int, c as int)) && r.end
                    == self@.utf16_of(max(a as int, c as int)),
                None => r.start == self@.utf16_of(self@.vim.cursor.offset as int) && r.end
                    == r.start,
            },
    {
        match self.vim.visual_selection() {
            Some((a, c, _)) => {
                let (lo, hi) = if a <= c {
                    (a, c)
                } else {
                    (c, a)
                };
                self.buf.byte_to_utf16(lo)..self.buf.byte_to_utf16(hi)
            },
            None => {
                let at = self.buf.byte_to_utf16(self.vim.cursor.offset);
                at..at
            },
        }
    }

    /// What is being composed, in UTF-16 offsets. An empty range means that
    /// the composition is over.
    pub fn marked_text_range(&self) -> (r: Option<Range<usize>>)
        ensures
            match self@.marked {
                Some((a, b)) => if a < b {
                    r is Some && r->0.start == self@.utf16_of(a as int) && r->0.end
                        == self@.utf16_of(b as int)
                } else {
                    r is None
                },
                None => r is None,
            },
    {
        match &self.marked_range {
            Some(range) => if range.start < range.end {
                Some(self.buf.byte_to_utf16(range.start)..self.buf.byte_to_utf16(range.end))
            } else {
                None
            },
            None => None,
        }
    }

    fn commit(&mut self, start: usize, end: usize, text: &str)
        ensures
            final(self)@.framed(old(self)@),
            final(self)@.world() == old(self)@.world().commit_text::<LinesBuf>(
                start as int,
                end as int,
                text@,
            ),
            final(self)@.env() == old(self)@.env(),
    {
        let ghost host = self.host;
        let ghost told = self.vim@.told;
        {
            let mut ctx = Ctx { buf: &mut self.buf, host: &mut self.host };
            self.vim.replace_range(&mut ctx, start..end, text);
        }
        proof {
            told_is_heard(self.host, self.vim@.told, host, told);
        }
    }

    /// Gives up what is being composed.
    pub fn unmark_text(&mut self)
        ensures
            final(self)@.framed(Edit { marked: None, ..old(self)@ }),
            match old(self)@.marked {
                Some((a, b)) => if a < b {
                    final(self)@.world() == old(self)@.world().commit_text::<LinesBuf>(
                        a as int,
                        b as int,
                        ""@,
                    )
                } else {
                    final(self)@ == (Edit { marked: None, ..old(self)@ })
                },
                None => final(self)@ == old(self)@,
            },
    {
        if let Some(range) = self.marked_range.take() {
            if range.start < range.end {
                self.commit(range.start, range.end, "");
            }
        }
    }

    fn record_commit(&mut self, text: &str)
        ensures
            final(self)@ == (Edit {
                vim: old(self)@.vim.typed(text@),
                marked: None,
                ..old(self)@
            }),
            final(self)@.vim.told == old(self)@.vim.told,
    {
        self.marked_range = None;
        self.vim.record_typed_text(text);
    }

    fn explicit_range(&self, range: Option<Range<usize>>) -> (r: Option<(usize, usize)>)
        ensures
            match crate::search::opt_pair(range) {
                Some((a, b)) => if self@.byte_of(a as int) < self@.byte_of(b as int) {
                    r is Some && (r->0).0 == self@.byte_of(a as int) && (r->0).1 == self@.byte_of(
                        b as int,
                    )
                } else {
                    r is None
                },
                None => r is None,
            },
    {
        match range {
            Some(range) => {
                let start = self.buf.utf16_to_byte(range.start);
                let end = self.buf.utf16_to_byte(range.end);
                if start < end {
                    Some((start, end))
                } else {
                    None
                }
            },
            None => None,
        }
    }

    /// Text from the platform's input method: it replaces what was being
    /// composed, or a range while inserting, or is typed.
    pub fn replace_text_in_range(&mut self, range: Option<Range<usize>>, text: &str)
        ensures
            match old(self)@.input(crate::search::opt_pair(range), text@) {
                Input::Commit(a, b) => exists|mid: Edit|
                    mid.framed(Edit { marked: None, ..old(self)@ }) && mid.world()
                        == (Edit {
                        vim: old(self)@.vim.typed(text@),
                        ..old(self)@
                    }).world().commit_text::<LinesBuf>(a as int, b as int, text@) && final(self)@
                        == #[trigger] mid.settled(),
                Input::Replace(a, b) => exists|mid: Edit|
                    mid.framed(old(self)@) && mid.world() == old(
                        self,
                    )@.world().commit_text::<LinesBuf>(a, b, text@) && final(self)@
                        == #[trigger] mid.settled(),
                Input::Ignore => final(self)@ == old(self)@.settled(),
                Input::Type => exists|mid: Edit, all: Seq<Seq<Moment>>|
                    mid.framed(old(self)@) && mid.world() == (#[trigger] old(
                        self,
                    )@.world().hear_text::<LinesBuf>(text@, all)).awaiting_none() && old(
                        self,
                    )@.world().shows_typing::<LinesBuf, EditHost>(text@, old(self).host, all)
                        && all_typed_alike(all, old(self)@.env()) && #[trigger] mid.settled()
                        == final(self)@,
            },
    {
        let ghost e = self@;
        if let Some((a, b)) = self.explicit_range(range) {
            if self.vim.mode.is_inserting() {
                self.commit(a, b, text);
            }
            let ghost mid = self@;
            self.settle();
            proof {
                assert(mid.framed(e));
            }
            return ;
        }
        let composing = match &self.marked_range {
            Some(r) => if r.start < r.end {
                Some((r.start, r.end))
            } else {
                None
            },
            None => None,
        };
        if !text.is_empty() {
            if let Some((a, b)) = composing {
                self.record_commit(text);
                self.commit(a, b, text);
                let ghost mid = self@;
                self.settle();
                proof {
                    assert(mid.framed(Edit { marked: None, ..e }));
                }
                return ;
            }
        }
        let ghost host = self.host;
        {
            let mut ctx = Ctx { buf: &mut self.buf, host: &mut self.host };
            dispatch_text(&mut self.vim, &mut ctx, text);
        }
        let ghost mid = self@;
        proof {
            told_is_heard(self.host, mid.vim.told, host, e.vim.told);
            a_box_is_steady();
            let all = choose|all: Seq<Seq<Moment>>|
                e.world().shows_typing::<LinesBuf, EditHost>(text@, host, all) && mid.world()
                    == (#[trigger] e.world().hear_text::<LinesBuf>(text@, all)).awaiting_none();
            what_is_shown_is_seen_typing::<LinesBuf, EditHost>(e.world(), text@, host, all);
        }
        self.settle();
        proof {
            assert(mid.framed(e));
            assert(mid.settled() == self@);
        }
    }

    /// Text that is still being composed: shown in place and marked, without
    /// running commands or being recorded for `.`.
    pub fn replace_and_mark_text_in_range(&mut self, new_text: &str)
        ensures
            if !old(self)@.vim.mode.inserting() {
                final(self)@ == old(self)@
            } else {
                let e = Edit {
                    vim: Vim { recording_suppressed: true, ..old(self)@.vim },
                    ..old(self)@
                };
                let n = cells(new_text@).len() as int;
                let start = match old(self)@.marked {
                    Some((a, _)) => a,
                    None => old(self)@.vim.cursor.offset,
                };
                let end = min(start + n, usize::MAX as int) as usize;
                let w = match old(self)@.marked {
                    Some((a, b)) => e.world().commit_text::<LinesBuf>(
                        a as int,
                        b as int,
                        new_text@,
                    ),
                    None => e.world().type_text::<LinesBuf>(new_text@),
                };
                &&& final(self)@.framed(
                    Edit {
                        marked: if old(self)@.marked is Some && end <= start {
                            None
                        } else {
                            Some((start, end))
                        },
                        ..old(self)@
                    },
                )
                &&& final(self)@.world() == w.with_vim(
                    Vim { recording_suppressed: false, ..w.vim },
                )
            },
    {
        if !self.vim.mode.is_inserting() {
            return ;
        }
        let n = byte_len(new_text);
        self.vim.set_recording_suppressed(true);
        match self.marked_range.take() {
            Some(previous) => {
                let (start, old_end) = (previous.start, previous.end);
                self.commit(start, old_end, new_text);
                let end = plus(start, n);
                self.marked_range = if start < end {
                    Some(start..end)
                } else {
                    None
                };
                self.vim.set_recording_suppressed(false);
            },
            None => {
                let start = self.vim.cursor.offset;
                let ghost host = self.host;
                let ghost told = self.vim@.told;
                {
                    let mut ctx = Ctx { buf: &mut self.buf, host: &mut self.host };
                    self.vim.insert_text_at_cursor(&mut ctx, new_text);
                }
                proof {
                    told_is_heard(self.host, self.vim@.told, host, told);
                }
                self.marked_range = Some(start..plus(start, n));
                self.vim.set_recording_suppressed(false);
            },
        }
    }
}

} // verus!
