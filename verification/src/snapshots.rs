//! A host for one editor: viewport, clipboard, search highlights and an undo
//! stack of snapshots with vim's group semantics.
use crate::buffer::{replaced, VimBuffer, VimBufferMut};
use crate::cells::cells;
use crate::doc::{min, Doc};
use crate::edit_host::copy_slice;
use crate::host::{asked, env, heard_since, Calls, HostCall, ScrollAnchor, VimHost};
use crate::normal::{undo_call, Reply};
use crate::rope::{rope_lines, RopeBuffer};
use crate::search::{opt_pair, pairs};
use crate::state::{text_of, World};
use crate::strs::{copy_str, decimal, push_decimal, same_str};
use crate::text::lemma_cells_of_chars;
use std::ops::Range;
use vstd::prelude::*;

verus! {

/// How many undo groups are kept.
pub const UNDO_LIMIT: usize = 200;

/// A text, and the cursor that goes with it.
pub struct Snapshot {
    pub text: String,
    pub cursor: usize,
}

/// What a [`Snapshot`] holds.
pub struct Saved {
    pub text: Seq<char>,
    pub cursor: usize,
}

impl View for Snapshot {
    type V = Saved;

    open spec fn view(&self) -> Saved {
        Saved { text: self.text@, cursor: self.cursor }
    }
}

pub open spec fn saved(v: Seq<Snapshot>) -> Seq<Saved> {
    v.map_values(|s: Snapshot| s@)
}

pub struct HostState {
    pub viewport: (usize, usize),
    pub highlights: Vec<Range<usize>>,
    pub current_highlight: Option<Range<usize>>,
    /// Text to be flushed to the system clipboard by the view.
    pub pending_clipboard_write: Option<String>,
    /// Mirrored system clipboard (synced on focus / paste).
    pub clipboard: Option<String>,
    pub scrolled_to: Option<usize>,
    /// Status text for the view to show.
    pub pending_status: Option<String>,
    /// `:q` — the view should close the window.
    pub pending_close: bool,
    /// `:action <id>` — the view should dispatch this host action.
    pub pending_action: Option<String>,
    /// Tab cycling direction (Some(forward)).
    pub pending_tab_cycle: Option<bool>,
    pub undo_stack: Vec<Snapshot>,
    pub redo_stack: Vec<Snapshot>,
    pub open_group: Option<u64>,
    /// Everything that the engine told this host.
    pub told: Ghost<Calls>,
}

/// What a [`HostState`] holds.
pub struct Desk {
    pub viewport: (usize, usize),
    pub highlights: Seq<(usize, usize)>,
    pub current: Option<(usize, usize)>,
    pub copied: Option<Seq<char>>,
    pub clip: Option<Seq<char>>,
    pub scrolled_to: Option<usize>,
    pub status: Option<Seq<char>>,
    pub close: bool,
    pub action: Option<Seq<char>>,
    pub tab_cycle: Option<bool>,
    pub undo: Seq<Saved>,
    pub redo: Seq<Saved>,
    pub group: Option<u64>,
    pub told: Calls,
}

impl View for HostState {
    type V = Desk;

    open spec fn view(&self) -> Desk {
        Desk {
            viewport: self.viewport,
            highlights: pairs(self.highlights@),
            current: opt_pair(self.current_highlight),
            copied: text_of(self.pending_clipboard_write),
            clip: text_of(self.clipboard),
            scrolled_to: self.scrolled_to,
            status: text_of(self.pending_status),
            close: self.pending_close,
            action: text_of(self.pending_action),
            tab_cycle: self.pending_tab_cycle,
            undo: saved(self.undo_stack@),
            redo: saved(self.redo_stack@),
            group: self.open_group,
            told: self.told@,
        }
    }
}

/// The newest snapshots that are kept.
pub open spec fn kept(stack: Seq<Saved>) -> Seq<Saved> {
    if stack.len() > UNDO_LIMIT {
        stack.skip(1)
    } else {
        stack
    }
}

/// The text that a document holds.
pub open spec fn text_in(d: Doc) -> Seq<char> {
    d.slice(0, d.len())
}

impl Desk {
    /// A group begins with the text before its first edit; edits that share
    /// its id belong to it.
    pub open spec fn grouped(self, d: Doc, id: u64, cursor: usize) -> Desk {
        if self.group == Some(id) {
            self
        } else {
            Desk {
                undo: kept(self.undo.push(Saved { text: text_in(d), cursor })),
                group: Some(id),
                ..self
            }
        }
    }

    pub open spec fn undone(self, d: Doc) -> Desk {
        if self.undo.len() == 0 {
            self
        } else {
            Desk {
                undo: self.undo.drop_last(),
                redo: self.redo.push(Saved { text: text_in(d), cursor: self.undo.last().cursor }),
                group: None,
                ..self
            }
        }
    }

    pub open spec fn redone(self, d: Doc) -> Desk {
        if self.redo.len() == 0 {
            self
        } else {
            Desk {
                redo: self.redo.drop_last(),
                undo: self.undo.push(Saved { text: text_in(d), cursor: self.redo.last().cursor }),
                group: None,
                ..self
            }
        }
    }
}

/// Undoing a group brings back the text before its first edit, and redoing it
/// the text after its last.
pub proof fn undo_takes_back_a_group(desk: Desk, before: Doc, after: Doc, id: u64, cursor: usize)
    requires
        desk.group != Some(id),
        desk.undo.len() < UNDO_LIMIT,
    ensures
        ({
            let grouped = desk.grouped(before, id, cursor);
            &&& grouped.undo.last().text == text_in(before)
            &&& grouped.grouped(after, id, cursor) == grouped
            &&& grouped.undone(after).undo == desk.undo
            &&& grouped.undone(after).redo.last().text == text_in(after)
            &&& grouped.undone(after).redone(before).undo == grouped.undo
        }),
{
    let grouped = desk.grouped(before, id, cursor);
    let one = Saved { text: text_in(before), cursor };
    assert(desk.undo.push(one).drop_last() =~= desk.undo);
    assert(grouped.undone(after).redone(before).undo =~= grouped.undo);
}

/// Never more than the limit is kept.
pub proof fn undo_stack_is_bounded(desk: Desk, d: Doc, id: u64, cursor: usize)
    requires
        desk.undo.len() <= UNDO_LIMIT,
    ensures
        desk.grouped(d, id, cursor).undo.len() <= UNDO_LIMIT,
{
}

/// An action that the host knows.
pub open spec fn known_action(id: Seq<char>) -> bool {
    ||| id == "demo.Save"@
    ||| id == "demo.Copy"@
    ||| id == "demo.Paste"@
    ||| id == "Save"@
    ||| id == "Copy"@
    ||| id == "Paste"@
}

fn knows_action(id: &str) -> (b: bool)
    ensures
        b == known_action(id@),
{
    same_str(id, "demo.Save") || same_str(id, "demo.Copy") || same_str(id, "demo.Paste")
        || same_str(id, "Save") || same_str(id, "Copy") || same_str(id, "Paste")
}

/// The status line after `:w`.
pub open spec fn written_message(name: Seq<char>, lines: int, bytes: int) -> Seq<char> {
    "\""@ + name + "\" "@ + decimal(lines) + "L, "@ + decimal(bytes)
        + "B written (demo: not persisted)"@
}

fn push_saved(v: &mut Vec<Snapshot>, text: String, cursor: usize)
    ensures
        saved(final(v)@) == saved(old(v)@).push(Saved { text: text@, cursor }),
{
    let ghost before = v@;
    let one = Snapshot { text, cursor };
    let ghost shown = one@;
    v.push(one);
    proof {
        assert(saved(v@) =~= saved(before).push(shown));
    }
}

fn pop_saved(v: &mut Vec<Snapshot>) -> (r: Option<Snapshot>)
    ensures
        match r {
            Some(s) => saved(old(v)@).len() > 0 && s@ == saved(old(v)@).last() && saved(final(v)@)
                == saved(old(v)@).drop_last(),
            None => saved(old(v)@).len() == 0 && saved(final(v)@) == saved(old(v)@),
        },
{
    let ghost before = v@;
    let r = v.pop();
    proof {
        if before.len() > 0 {
            assert(saved(v@) =~= saved(before).drop_last());
        } else {
            assert(saved(v@) =~= saved(before));
        }
    }
    r
}

/// The text of a buffer.
fn whole_text<B: VimBuffer>(buf: &B) -> (s: String)
    ensures
        s@ == text_in(buf.doc()),
{
    proof {
        buf.doc_wf();
    }
    buf.slice(0..buf.len())
}

/// The buffer holds another text.
fn put_text<B: VimBufferMut>(buf: &mut B, text: &str)
    ensures
        !old(buf).editable() ==> final(buf).edition() == old(buf).edition(),
        final(buf).editable() == old(buf).editable(),
        final(buf).doc() == if old(buf).editable() {
            replaced::<B>(old(buf).doc(), 0, old(buf).doc().len(), text@)
        } else {
            old(buf).doc()
        },
{
    let n = buf.len();
    buf.replace_range(0..n, text);
}

/// A desk on which nothing happened yet.
pub open spec fn fresh_desk() -> Desk {
    Desk {
        viewport: (0, 24),
        highlights: Seq::empty(),
        current: None,
        copied: None,
        clip: None,
        scrolled_to: None,
        status: None,
        close: false,
        action: None,
        tab_cycle: None,
        undo: Seq::empty(),
        redo: Seq::empty(),
        group: None,
        told: Seq::empty(),
    }
}

impl HostState {
    pub fn new() -> (h: Self)
        ensures
            h@ == fresh_desk(),
    {
        let h = HostState {
            viewport: (0, 24),
            highlights: Vec::new(),
            current_highlight: None,
            pending_clipboard_write: None,
            clipboard: None,
            scrolled_to: None,
            pending_status: None,
            pending_close: false,
            pending_action: None,
            pending_tab_cycle: None,
            undo_stack: Vec::new(),
            redo_stack: Vec::new(),
            open_group: None,
            told: Ghost(Seq::empty()),
        };
        proof {
            assert(h@.highlights =~= Seq::empty());
            assert(h@.undo =~= Seq::empty());
            assert(h@.redo =~= Seq::empty());
        }
        h
    }

    pub fn undo_depth(&self) -> (n: usize)
        ensures
            n == self@.undo.len(),
    {
        proof {
            assert(saved(self.undo_stack@).len() == self.undo_stack@.len());
        }
        self.undo_stack.len()
    }
}

impl Desk {
    /// What is left of one call of the engine.
    pub open spec fn after(self, call: HostCall) -> Desk {
        let p = match call {
            HostCall::Scroll(line) => Desk { scrolled_to: Some(line as usize), ..self },
            HostCall::ScrollAnchored(line, _) => Desk { scrolled_to: Some(line as usize), ..self },
            HostCall::Highlights(highlights, current) => Desk { highlights, current, ..self },
            HostCall::BeginGroup(id, cursor, d) => self.grouped(d, id, cursor),
            HostCall::Undo(a) => self.undone(a.doc),
            HostCall::Redo(a) => self.redone(a.doc),
            HostCall::Copy(text) => Desk { copied: Some(text), clip: Some(text), ..self },
            HostCall::Save(d) => Desk {
                status: Some(
                    written_message("untitled"@, rope_lines(d.cells).len() - 1, d.len()),
                ),
                ..self
            },
            HostCall::Close(_) => Desk { close: true, ..self },
            HostCall::Status(message) => Desk { status: Some(message), ..self },
            HostCall::Action(id, strict) => if id == "demo.tab-next"@ {
                Desk { tab_cycle: Some(true), ..self }
            } else if id == "demo.tab-prev"@ {
                Desk { tab_cycle: Some(false), ..self }
            } else if known_action(id) || strict {
                Desk { action: Some(id), ..self }
            } else {
                self
            },
            _ => self,
        };
        Desk { told: self.told.push(call), ..p }
    }

    /// What is left of calls of the engine, one after the other.
    pub open spec fn served(self, calls: Calls) -> Desk
        decreases calls.len(),
    {
        if calls.len() == 0 {
            self
        } else {
            self.served(calls.drop_last()).after(calls.last())
        }
    }

    /// An undo or redo brings back the text and the cursor of the newest
    /// snapshot; without one it is declined and the text left alone.
    pub open spec fn answered(self, call: HostCall) -> bool {
        match call {
            HostCall::Undo(a) => if self.undo.len() == 0 {
                a.declined()
            } else {
                a.restored(self.undo.last().text, self.undo.last().cursor)
            },
            HostCall::Redo(a) => if self.redo.len() == 0 {
                a.declined()
            } else {
                a.restored(self.redo.last().text, self.redo.last().cursor)
            },
            _ => true,
        }
    }

    /// Each of the calls, one after the other, is answered so.
    pub open spec fn answers(self, calls: Calls) -> bool
        decreases calls.len(),
    {
        calls.len() == 0 || (self.answers(calls.drop_last()) && self.served(
            calls.drop_last(),
        ).answered(calls.last()))
    }
}

proof fn lemma_serves(before: HostState, after: HostState, call: HostCall)
    requires
        after@ == before@.after(call),
        before@.answered(call),
    ensures
        forall|h: HostState, calls: Calls|
            #[trigger] before.serves(&h, calls) ==> after.serves(&h, calls.push(call)),
{
    assert forall|h: HostState, calls: Calls| #[trigger] before.serves(&h, calls) implies after.serves(
        &h,
        calls.push(call),
    ) by {
        assert(calls.push(call).drop_last() =~= calls);
    }
}

proof fn lemma_served_viewport(p: Desk, calls: Calls)
    ensures
        p.served(calls).viewport == p.viewport,
    decreases calls.len(),
{
    if calls.len() > 0 {
        lemma_served_viewport(p, calls.drop_last());
    }
}

/// Whatever the engine tells it, a desk shows the same lines; its clipboard
/// holds the last text that was copied, if any was.
pub proof fn what_a_desk_shows(h: HostState, log: Calls, g: HostState, since: Calls)
    requires
        heard_since(h, log, g, since),
    ensures
        env(h).seen == env(g).seen,
        env(h).clip == g@.served(log.skip(since.len() as int)).clip,
{
    reveal(heard_since);
    lemma_served_viewport(g@, log.skip(since.len() as int));
}

impl VimHost for HostState {
    open spec fn told(&self) -> Calls {
        self.told@
    }

    open spec fn serves(&self, before: &Self, calls: Calls) -> bool {
        self@ == before@.served(calls) && before@.answers(calls)
    }

    proof fn serves_nothing(&self) {
    }

    open spec fn seen_lines(&self) -> (usize, usize) {
        self.viewport
    }

    open spec fn clip(&self) -> Option<Seq<char>> {
        text_of(self.clipboard)
    }

    fn viewport(&self) -> (r: (usize, usize)) {
        self.viewport
    }

    fn scroll_to_line(&mut self, line: usize)
        ensures
            final(self)@ == old(self)@.after(HostCall::Scroll(line as int)),
    {
        self.scrolled_to = Some(line);
        proof {
            self.told@ = self.told@.push(HostCall::Scroll(line as int));
            lemma_serves(*old(self), *self, HostCall::Scroll(line as int));
        }
    }

    fn scroll_to_line_anchored(&mut self, line: usize, anchor: ScrollAnchor)
        ensures
            final(self)@ == old(self)@.after(HostCall::ScrollAnchored(line as int, anchor)),
    {
        self.scrolled_to = Some(line);
        proof {
            self.told@ = self.told@.push(HostCall::ScrollAnchored(line as int, anchor));
            lemma_serves(*old(self), *self, HostCall::ScrollAnchored(line as int, anchor));
        }
    }

    fn clipboard_write(&mut self, text: &str)
        ensures
            final(self)@ == old(self)@.after(HostCall::Copy(text@)),
    {
        self.pending_clipboard_write = Some(copy_str(text));
        self.clipboard = Some(copy_str(text));
        proof {
            self.told@ = self.told@.push(HostCall::Copy(text@));
            lemma_serves(*old(self), *self, HostCall::Copy(text@));
        }
    }

    fn clipboard_read(&self) -> (r: Option<String>) {
        match &self.clipboard {
            Some(s) => Some(copy_str(s.as_str())),
            None => None,
        }
    }

    fn set_search_highlights(&mut self, matches: &[Range<usize>], current: Option<Range<usize>>)
        ensures
            final(self)@ == old(self)@.after(
                HostCall::Highlights(pairs(matches@), opt_pair(current)),
            ),
    {
        let ghost call = HostCall::Highlights(pairs(matches@), opt_pair(current));
        self.highlights = copy_slice(matches);
        self.current_highlight = current;
        proof {
            self.told@ = self.told@.push(call);
            lemma_serves(*old(self), *self, call);
        }
    }

    fn begin_undo_group<B: VimBuffer>(&mut self, buf: &B, id: u64, cursor_offset: usize)
        ensures
            final(self)@ == old(self)@.after(HostCall::BeginGroup(id, cursor_offset, buf.doc())),
    {
        let open = match self.open_group {
            Some(open) => open == id,
            None => false,
        };
        if !open {
            push_saved(&mut self.undo_stack, whole_text(buf), cursor_offset);
            if self.undo_stack.len() > UNDO_LIMIT {
                let ghost before = self.undo_stack@;
                self.undo_stack.remove(0);
                proof {
                    assert(saved(self.undo_stack@) =~= saved(before).skip(1));
                }
            }
            self.open_group = Some(id);
        }
        proof {
            self.told@ = self.told@.push(HostCall::BeginGroup(id, cursor_offset, buf.doc()));
            lemma_serves(*old(self), *self, HostCall::BeginGroup(id, cursor_offset, buf.doc()));
        }
    }

    fn undo<B: VimBufferMut>(&mut self, buf: &mut B) -> (r: Option<usize>)
        ensures
            final(self)@ == old(self)@.after(HostCall::Undo(asked(*old(buf), r, *final(buf)))),
            r == if old(self)@.undo.len() == 0 {
                None
            } else {
                Some(old(self)@.undo.last().cursor)
            },
            final(buf).doc() == if old(self)@.undo.len() > 0 && old(buf).editable() {
                replaced::<B>(
                    old(buf).doc(),
                    0,
                    old(buf).doc().len(),
                    old(self)@.undo.last().text,
                )
            } else {
                old(buf).doc()
            },
    {
        let answer = match pop_saved(&mut self.undo_stack) {
            Some(s) => {
                let cursor = s.cursor;
                push_saved(&mut self.redo_stack, whole_text(&*buf), cursor);
                put_text(buf, s.text.as_str());
                self.open_group = None;
                Some(cursor)
            },
            None => None,
        };
        proof {
            let call = HostCall::Undo(asked(*old(buf), answer, *buf));
            self.told@ = self.told@.push(call);
            lemma_serves(*old(self), *self, call);
        }
        answer
    }

    fn redo<B: VimBufferMut>(&mut self, buf: &mut B) -> (r: Option<usize>)
        ensures
            final(self)@ == old(self)@.after(HostCall::Redo(asked(*old(buf), r, *final(buf)))),
            r == if old(self)@.redo.len() == 0 {
                None
            } else {
                Some(old(self)@.redo.last().cursor)
            },
            final(buf).doc() == if old(self)@.redo.len() > 0 && old(buf).editable() {
                replaced::<B>(
                    old(buf).doc(),
                    0,
                    old(buf).doc().len(),
                    old(self)@.redo.last().text,
                )
            } else {
                old(buf).doc()
            },
    {
        let answer = match pop_saved(&mut self.redo_stack) {
            Some(s) => {
                let cursor = s.cursor;
                push_saved(&mut self.undo_stack, whole_text(&*buf), cursor);
                put_text(buf, s.text.as_str());
                self.open_group = None;
                Some(cursor)
            },
            None => None,
        };
        proof {
            let call = HostCall::Redo(asked(*old(buf), answer, *buf));
            self.told@ = self.told@.push(call);
            lemma_serves(*old(self), *self, call);
        }
        answer
    }

    fn changed(&mut self)
        ensures
            final(self)@ == old(self)@.after(HostCall::Changed),
    {
        proof {
            self.told@ = self.told@.push(HostCall::Changed);
            lemma_serves(*old(self), *self, HostCall::Changed);
        }
    }

    fn bell(&mut self)
        ensures
            final(self)@ == old(self)@.after(HostCall::Bell),
    {
        proof {
            self.told@ = self.told@.push(HostCall::Bell);
            lemma_serves(*old(self), *self, HostCall::Bell);
        }
    }

    fn status_message(&mut self, message: &str)
        ensures
            final(self)@ == old(self)@.after(HostCall::Status(message@)),
    {
        self.pending_status = Some(copy_str(message));
        proof {
            self.told@ = self.told@.push(HostCall::Status(message@));
            lemma_serves(*old(self), *self, HostCall::Status(message@));
        }
    }

    fn buffer_name(&self) -> (s: &str)
        ensures
            s@ == "untitled"@,
    {
        "untitled"
    }

    fn save<B: VimBuffer>(&mut self, buf: &B)
        ensures
            final(self)@ == old(self)@.after(HostCall::Save(buf.doc())),
    {
        proof {
            buf.doc_wf();
            let d = buf.doc();
            assert(d.cells.subrange(0, d.len()) =~= d.cells);
            lemma_cells_of_chars(d.cells);
        }
        let breaks = RopeBuffer::new(whole_text(buf).as_str()).line_breaks();
        let mut s = copy_str("\"");
        s.push_str(self.buffer_name());
        s.push_str("\" ");
        push_decimal(&mut s, breaks as u64);
        s.push_str("L, ");
        push_decimal(&mut s, buf.len() as u64);
        s.push_str("B written (demo: not persisted)");
        self.pending_status = Some(s);
        proof {
            self.told@ = self.told@.push(HostCall::Save(buf.doc()));
            lemma_serves(*old(self), *self, HostCall::Save(buf.doc()));
        }
    }

    fn request_close(&mut self)
        ensures
            final(self)@ == (Desk { close: true, ..old(self)@ }),
    {
        self.pending_close = true;
    }

    fn request_close_hinted(&mut self, force: bool)
        ensures
            final(self)@ == old(self)@.after(HostCall::Close(force)),
    {
        self.request_close();
        proof {
            self.told@ = self.told@.push(HostCall::Close(force));
            lemma_serves(*old(self), *self, HostCall::Close(force));
        }
    }

    fn cycle_buffer(&mut self, forward: bool) -> (r: bool)
        ensures
            r,
            final(self)@ == (Desk { tab_cycle: Some(forward), ..old(self)@ }),
    {
        self.pending_tab_cycle = Some(forward);
        true
    }

    /// Tabs are switched by two ids of their own. Strict layers report unknown
    /// ids; shared user layers ignore them, as mappings aimed at other apps
    /// are expected to miss.
    fn dispatch_host_action_hinted(&mut self, id: &str, strict: bool)
        ensures
            final(self)@ == old(self)@.after(HostCall::Action(id@, strict)),
    {
        if same_str(id, "demo.tab-next") {
            self.pending_tab_cycle = Some(true);
        } else if same_str(id, "demo.tab-prev") {
            self.pending_tab_cycle = Some(false);
        } else if knows_action(id) || strict {
            self.pending_action = Some(copy_str(id));
        }
        proof {
            self.told@ = self.told@.push(HostCall::Action(id@, strict));
            lemma_serves(*old(self), *self, HostCall::Action(id@, strict));
        }
    }
}

/// With a buffer that takes the text, undo puts back exactly the text of the
/// snapshot.
pub proof fn undo_restores_the_text<B: VimBufferMut>(d: Doc, text: Seq<char>)
    requires
        d.wf(),
        text.len() == 0 || B::takes(text),
        B::edited(d, 0, d.len(), Seq::empty()).wf(),
    ensures
        replaced::<B>(d, 0, d.len(), text).cells == cells(text),
{
    assert(d.at_boundary(0) && d.at_boundary(d.len()));
    crate::buffer::replaced_exact::<B>(d, 0, d.len(), text);
    assert(crate::doc::splice(d.cells, 0, d.len(), cells(text)) =~= cells(text));
}

/// Each of the calls that a desk was told was answered by what the desk had
/// become by then.
pub proof fn every_call_is_answered(desk: Desk, calls: Calls, k: int)
    requires
        desk.answers(calls),
        0 <= k < calls.len(),
    ensures
        desk.served(calls.take(k)).answered(calls[k]),
    decreases calls.len(),
{
    if k == calls.len() - 1 {
        assert(calls.take(k) =~= calls.drop_last());
    } else {
        every_call_is_answered(desk, calls.drop_last(), k);
        assert(calls.drop_last().take(k) =~= calls.take(k));
    }
}

/// An undo that a desk answers brings back the text and the cursor of the
/// newest snapshot, in a buffer that takes that text; a redo likewise.
pub proof fn undo_brings_back_the_snapshot<B: VimBufferMut>(
    desk: Desk,
    w: World,
    redo: bool,
    reply: Reply,
)
    requires
        w.doc.wf(),
        w.editable,
        desk.answered(undo_call(redo, w.asks::<B>(reply))),
        ({
            let stack = if redo {
                desk.redo
            } else {
                desk.undo
            };
            stack.len() > 0 && (stack.last().text.len() == 0 || B::takes(stack.last().text))
        }),
        B::edited(w.doc, 0, w.doc.len(), Seq::empty()).wf(),
    ensures
        ({
            let newest = if redo {
                desk.redo.last()
            } else {
                desk.undo.last()
            };
            let u = w.take_reply::<B>(redo, reply);
            &&& u.doc.cells == cells(newest.text)
            &&& u.vim.cursor.offset == u.doc.clamp(min(newest.cursor as int, u.doc.len())) as usize
        }),
{
    reveal(World::take_reply);
    let newest = if redo {
        desk.redo.last()
    } else {
        desk.undo.last()
    };
    undo_restores_the_text::<B>(w.doc, newest.text);
    let u = w.take_reply::<B>(redo, reply);
    assert(u.doc == replaced::<B>(w.doc, 0, w.doc.len(), newest.text));
}

} // verus!
