//! The host-facing side-effect surface.
//!
//! The engine computes *what* to do; the host decides *how* it shows up:
//! scrolling, the system clipboard, search highlighting and the undo stack.
use crate::buffer::{replaced, VimBuffer, VimBufferMut};
use crate::doc::Doc;
use crate::normal::Reply;
use crate::search::{opt_pair, pairs};
use std::ops::Range;
use vstd::prelude::*;

verus! {

/// Where a line ends up on screen when the host scrolls to it.
#[derive(Clone, Copy, Debug, PartialEq, Eq, Structural)]
pub enum ScrollAnchor {
    /// Wherever the cursor's line becomes visible.
    Cursor,
    /// `zz`
    Center,
    /// `zt`
    Top,
    /// `zb`
    Bottom,
}

/// Calls of the model, in the order in which they were made. Code outside of
/// proofs can name them, but never holds any.
pub type Calls = Seq<HostCall>;

/// Side-effect hooks the host must (or may) implement.
///
/// A host remembers, for proofs alone, what it was told ([`VimHost::told`]).
/// How its own state comes of that is stated by [`VimHost::serves`]; a host
/// that promises nothing there says `true`.
pub trait VimHost: Sized {
    /// Everything that the host was told so far.
    spec fn told(&self) -> Calls;

    /// The host is what `before` becomes when it is told `calls`.
    spec fn serves(&self, before: &Self, calls: Calls) -> bool;

    /// A host that is told nothing stays what it is.
    proof fn serves_nothing(&self)
        ensures
            self.serves(self, Seq::empty()),
    ;

    /// The lines that are visible at present.
    spec fn seen_lines(&self) -> (usize, usize);

    /// What the system clipboard holds at present.
    spec fn clip(&self) -> Option<Seq<char>>;

    /// Inclusive `(first_line, last_line)` of what is currently visible.
    fn viewport(&self) -> (r: (usize, usize))
        ensures
            r == self.seen_lines(),
    ;

    /// Make sure `line` is visible.
    fn scroll_to_line(&mut self, line: usize)
        ensures
            final(self).clip() == old(self).clip(),
            final(self).told() == old(self).told().push(HostCall::Scroll(line as int)),
            forall|h: Self, calls: Calls|
                #[trigger] old(self).serves(&h, calls) ==> final(self).serves(
                    &h,
                    calls.push(HostCall::Scroll(line as int)),
                ),
    ;

    /// Show `line` at a given place of the viewport.
    fn scroll_to_line_anchored(&mut self, line: usize, anchor: ScrollAnchor)
        ensures
            final(self).clip() == old(self).clip(),
            final(self).told() == old(self).told().push(HostCall::ScrollAnchored(line as int, anchor)),
            forall|h: Self, calls: Calls|
                #[trigger] old(self).serves(&h, calls) ==> final(self).serves(
                    &h,
                    calls.push(HostCall::ScrollAnchored(line as int, anchor)),
                ),
    ;

    /// Text for the system clipboard, from the register `"+`. What a later
    /// read answers is the host's own matter.
    fn clipboard_write(&mut self, text: &str)
        ensures
            final(self).seen_lines() == old(self).seen_lines(),
            final(self).told() == old(self).told().push(HostCall::Copy(text@)),
            forall|h: Self, calls: Calls|
                #[trigger] old(self).serves(&h, calls) ==> final(self).serves(
                    &h,
                    calls.push(HostCall::Copy(text@)),
                ),
    ;

    fn clipboard_read(&self) -> (r: Option<String>)
        ensures
            r is Some == self.clip() is Some,
            r matches Some(s) ==> self.clip() == Some(s@),
    ;

    /// Publish search matches for highlighting. `current` is the match the
    /// cursor sits on (rendered differently). An empty slice clears.
    fn set_search_highlights(&mut self, matches: &[Range<usize>], current: Option<Range<usize>>)
        ensures
            final(self).seen_lines() == old(self).seen_lines(),
            final(self).clip() == old(self).clip(),
            final(self).told() == old(self).told().push(HostCall::Highlights(pairs(matches@), opt_pair(current))),
            forall|h: Self, calls: Calls|
                #[trigger] old(self).serves(&h, calls) ==> final(self).serves(
                    &h,
                    calls.push(HostCall::Highlights(pairs(matches@), opt_pair(current))),
                ),
    ;

    /// Begin an undo group. The engine assigns a fresh monotonically
    /// increasing id per logical undo unit; edits sharing an id (an insert
    /// session) belong to the same group and the host must merge them.
    /// `buf` is the buffer before the group's first edit, and `cursor_offset`
    /// the engine cursor there — the natural place to restore the cursor to
    /// on undo.
    fn begin_undo_group<B: VimBuffer>(&mut self, buf: &B, id: u64, cursor_offset: usize)
        ensures
            final(self).seen_lines() == old(self).seen_lines(),
            final(self).clip() == old(self).clip(),
            final(self).told() == old(self).told().push(HostCall::BeginGroup(id, cursor_offset, buf.doc())),
            forall|h: Self, calls: Calls|
                #[trigger] old(self).serves(&h, calls) ==> final(self).serves(
                    &h,
                    calls.push(HostCall::BeginGroup(id, cursor_offset, buf.doc())),
                ),
    ;

    /// Undo the most recent group in `buf`. Returns the cursor offset to
    /// restore, or `None` if there is nothing to undo.
    fn undo<B: VimBufferMut>(&mut self, buf: &mut B) -> (r: Option<usize>)
        ensures
            final(buf).editable() == old(buf).editable(),
            !old(buf).editable() ==> final(buf).doc() == old(buf).doc() && final(buf).edition()
                == old(buf).edition(),
            final(self).clip() == old(self).clip(),
            final(self).told() == old(self).told().push(HostCall::Undo(asked(*old(buf), r, *final(buf)))),
            forall|h: Self, calls: Calls|
                #[trigger] old(self).serves(&h, calls) ==> final(self).serves(
                    &h,
                    calls.push(HostCall::Undo(asked(*old(buf), r, *final(buf)))),
                ),
    ;

    /// Redo. Same contract as [`VimHost::undo`].
    fn redo<B: VimBufferMut>(&mut self, buf: &mut B) -> (r: Option<usize>)
        ensures
            final(buf).editable() == old(buf).editable(),
            !old(buf).editable() ==> final(buf).doc() == old(buf).doc() && final(buf).edition()
                == old(buf).edition(),
            final(self).clip() == old(self).clip(),
            final(self).told() == old(self).told().push(HostCall::Redo(asked(*old(buf), r, *final(buf)))),
            forall|h: Self, calls: Calls|
                #[trigger] old(self).serves(&h, calls) ==> final(self).serves(
                    &h,
                    calls.push(HostCall::Redo(asked(*old(buf), r, *final(buf)))),
                ),
    ;

    /// The buffer changed: repaint.
    fn changed(&mut self)
        ensures
            final(self).seen_lines() == old(self).seen_lines(),
            final(self).clip() == old(self).clip(),
            final(self).told() == old(self).told().push(HostCall::Changed),
            forall|h: Self, calls: Calls|
                #[trigger] old(self).serves(&h, calls) ==> final(self).serves(
                    &h,
                    calls.push(HostCall::Changed),
                ),
    ;

    /// Feedback for ignored keys (visual bell / flash). Optional.
    fn bell(&mut self)
        ensures
            final(self).seen_lines() == old(self).seen_lines(),
            final(self).clip() == old(self).clip(),
            final(self).told() == old(self).told().push(HostCall::Bell),
            forall|h: Self, calls: Calls|
                #[trigger] old(self).serves(&h, calls) ==> final(self).serves(
                    &h,
                    calls.push(HostCall::Bell),
                ),
    ;

    /// `:w` — persist the buffer. Hosts that don't persist may report the
    /// no-op through their own status channel.
    fn save<B: VimBuffer>(&mut self, buf: &B)
        ensures
            final(self).told() == old(self).told().push(HostCall::Save(buf.doc())),
            forall|h: Self, calls: Calls|
                #[trigger] old(self).serves(&h, calls) ==> final(self).serves(
                    &h,
                    calls.push(HostCall::Save(buf.doc())),
                ),
    ;

    /// `:q` — close the editor. The host decides whether that is allowed
    /// (e.g. prompting about unsaved changes is the host's call).
    fn request_close(&mut self) {
    }

    /// [`VimHost::request_close`], telling `:q!` (`force`) from `:q`.
    fn request_close_hinted(&mut self, force: bool)
        ensures
            final(self).told() == old(self).told().push(HostCall::Close(force)),
            forall|h: Self, calls: Calls|
                #[trigger] old(self).serves(&h, calls) ==> final(self).serves(
                    &h,
                    calls.push(HostCall::Close(force)),
                ),
    ;

    /// Non-fatal feedback text for the status UI: `E486: Pattern not found`,
    /// substitution counts, unknown Ex commands. Optional (default no-op);
    /// errors that need a decision still go through `bell`.
    fn status_message(&mut self, message: &str)
        ensures
            final(self).seen_lines() == old(self).seen_lines(),
            final(self).clip() == old(self).clip(),
            final(self).told() == old(self).told().push(HostCall::Status(message@)),
            forall|h: Self, calls: Calls|
                #[trigger] old(self).serves(&h, calls) ==> final(self).serves(
                    &h,
                    calls.push(HostCall::Status(message@)),
                ),
    ;

    /// The buffer's name for status UI. Optional.
    fn buffer_name(&self) -> (s: &str) {
        ""
    }

    /// Show the next or previous buffer. Returns whether the host did.
    fn cycle_buffer(&mut self, forward: bool) -> (r: bool) {
        false
    }

    /// Bridge for `:map <Leader>x :action SomeAction<CR>` — dispatch a
    /// HOST application action by id (IdeaVim's `:action` bridge). Unknown
    /// ids are the host's problem: report through `status_message`.
    fn dispatch_host_action(&mut self, id: &str) {
    }

    /// [`VimHost::dispatch_host_action`] with a hint whether an unknown id
    /// should be reported (`strict`) or ignored.
    fn dispatch_host_action_hinted(&mut self, id: &str, strict: bool)
        ensures
            final(self).told() == old(self).told().push(HostCall::Action(id@, strict)),
            forall|h: Self, calls: Calls|
                #[trigger] old(self).serves(&h, calls) ==> final(self).serves(
                    &h,
                    calls.push(HostCall::Action(id@, strict)),
                ),
    ;
}

/// Every undo and redo among the calls was declined, and left the text alone.
pub open spec fn all_declined(calls: Calls) -> bool {
    forall|i: int| 0 <= i < calls.len() ==> declined(#[trigger] calls[i])
}

/// An undo or redo that was declined and left the text alone, or another call.
pub open spec fn declined(call: HostCall) -> bool {
    match call {
        HostCall::Undo(a) => a.declined(),
        HostCall::Redo(a) => a.declined(),
        _ => true,
    }
}

/// An undo or redo that a host was asked for, and what came of it.
pub struct Asked {
    /// The text before it, in which edition, and whether edits take effect.
    pub doc: Doc,
    pub edition: u64,
    pub editable: bool,
    /// What the buffer would hold with another text in the place of all of it.
    pub put: spec_fn(Seq<char>) -> Doc,
    pub reply: Reply,
}

impl Asked {
    /// There was nothing to undo, and the text was left alone.
    pub open spec fn declined(self) -> bool {
        self.reply == (Reply { answer: None, doc: self.doc, edition: self.edition })
    }

    /// The buffer holds `text` now, if it takes edits, and the cursor goes to
    /// `cursor`.
    pub open spec fn restored(self, text: Seq<char>, cursor: usize) -> bool {
        &&& self.reply.answer == Some(cursor)
        &&& self.reply.doc == if self.editable {
            (self.put)(text)
        } else {
            self.doc
        }
    }
}

/// A text in the place of the whole text of a buffer.
pub open spec fn put_in_place<B: VimBufferMut>(d: Doc) -> spec_fn(Seq<char>) -> Doc {
    |text: Seq<char>| replaced::<B>(d, 0, d.len(), text)
}

/// What was asked of a host with the buffer `before`, and gave `after`.
pub open spec fn asked<B: VimBufferMut>(before: B, answer: Option<usize>, after: B) -> Asked {
    Asked {
        doc: before.doc(),
        edition: before.edition(),
        editable: before.editable(),
        put: put_in_place::<B>(before.doc()),
        reply: Reply { answer, doc: after.doc(), edition: after.edition() },
    }
}

/// A call after which the host still shows the same lines.
pub open spec fn keeps_seen(call: HostCall) -> bool {
    match call {
        HostCall::Highlights(..)
        | HostCall::BeginGroup(..)
        | HostCall::Changed
        | HostCall::Copy(_)
        | HostCall::Bell
        | HostCall::Status(_) => true,
        _ => false,
    }
}

/// A call after which the clipboard still holds the same.
pub open spec fn keeps_clip(call: HostCall) -> bool {
    match call {
        HostCall::Copy(_) | HostCall::Save(_) | HostCall::Close(_) | HostCall::Action(..) => false,
        _ => true,
    }
}

pub open spec fn all_keep_seen(calls: Calls) -> bool {
    forall|i: int| 0 <= i < calls.len() ==> keeps_seen(#[trigger] calls[i])
}

pub open spec fn all_keep_clip(calls: Calls) -> bool {
    forall|i: int| 0 <= i < calls.len() ==> keeps_clip(#[trigger] calls[i])
}

/// The host shows what it showed `before`, as far as none of the calls in
/// between can have changed it.
pub open spec fn shows_on<H: VimHost>(host: H, before: H, calls: Calls) -> bool {
    &&& all_keep_seen(calls) ==> host.seen_lines() == before.seen_lines()
    &&& all_keep_clip(calls) ==> host.clip() == before.clip()
}

/// `host` is what `before` has become since the engine's log was `since`: it
/// was told what the log has gained, in that order and nothing else.
#[verifier::opaque]
pub open spec fn heard_since<H: VimHost>(host: H, log: Calls, before: H, since: Calls) -> bool {
    &&& since.len() <= log.len()
    &&& log.take(since.len() as int) == since
    &&& host.told() == before.told() + log.skip(since.len() as int)
    &&& host.serves(&before, log.skip(since.len() as int))
    &&& shows_on(host, before, log.skip(since.len() as int))
}

/// What the host of a step heard is what the engine's log gained: whatever
/// holds of the host since some earlier time still holds after the step.
pub open spec fn hears<H: VimHost>(host: H, log: Calls, old_host: H, old_log: Calls) -> bool {
    forall|h: H, t: Calls|
        heard_since(old_host, old_log, h, t) ==> #[trigger] heard_since(host, log, h, t)
}

/// One call that the host takes and the log notes.
pub proof fn lemma_one_call<H: VimHost>(host: H, old_host: H, log: Calls, call: HostCall)
    requires
        host.told() == old_host.told().push(call),
        forall|h: H, calls: Calls|
            #[trigger] old_host.serves(&h, calls) ==> host.serves(&h, calls.push(call)),
        keeps_seen(call) ==> host.seen_lines() == old_host.seen_lines(),
        keeps_clip(call) ==> host.clip() == old_host.clip(),
    ensures
        hears(host, log.push(call), old_host, log),
{
    reveal(heard_since);
    assert forall|h: H, t: Calls| heard_since(old_host, log, h, t) implies #[trigger] heard_since(
        host,
        log.push(call),
        h,
        t,
    ) by {
        let n = t.len() as int;
        assert(log.push(call).take(n) =~= log.take(n));
        assert(log.push(call).skip(n) =~= log.skip(n).push(call));
        assert(host.told() =~= h.told() + log.skip(n).push(call));
        assert(old_host.serves(&h, log.skip(n)));
        let gained = log.skip(n);
        let more = gained.push(call);
        if all_keep_seen(more) {
            assert forall|i: int| 0 <= i < gained.len() implies keeps_seen(
                #[trigger] gained[i],
            ) by {
                assert(more[i] == gained[i]);
            }
            assert(more[gained.len() as int] == call);
        }
        if all_keep_clip(more) {
            assert forall|i: int| 0 <= i < gained.len() implies keeps_clip(
                #[trigger] gained[i],
            ) by {
                assert(more[i] == gained[i]);
            }
            assert(more[gained.len() as int] == call);
        }
    }
}

/// A host has heard nothing since now.
pub proof fn lemma_heard_nothing<H: VimHost>(host: H, log: Calls)
    ensures
        heard_since(host, log, host, log),
{
    reveal(heard_since);
    host.serves_nothing();
    assert(log.take(log.len() as int) =~= log);
    assert(log.skip(log.len() as int) =~= Seq::empty());
    assert(host.told() + Seq::<HostCall>::empty() =~= host.told());
}

/// What is noted in the engine's log is what the host is told: after a step
/// the host was told exactly what the log gained.
pub proof fn told_is_heard<H: VimHost>(host: H, log: Calls, old_host: H, old_log: Calls)
    requires
        hears(host, log, old_host, old_log),
    ensures
        old_log.len() <= log.len(),
        log.take(old_log.len() as int) == old_log,
        host.told() == old_host.told() + log.skip(old_log.len() as int),
        host.serves(&old_host, log.skip(old_log.len() as int)),
        shows_on(host, old_host, log.skip(old_log.len() as int)),
{
    reveal(heard_since);
    lemma_heard_nothing(old_host, old_log);
    assert(heard_since(host, log, old_host, old_log));
}

/// The undo groups that a host was told of: their numbers, in order.
pub open spec fn begun(calls: Calls) -> Seq<u64>
    decreases calls.len(),
{
    if calls.len() == 0 {
        Seq::empty()
    } else {
        let before = begun(calls.drop_last());
        match calls.last() {
            HostCall::BeginGroup(id, _, _) => before.push(id),
            _ => before,
        }
    }
}

pub broadcast proof fn lemma_begun_push(calls: Calls, call: HostCall)
    ensures
        #[trigger] begun(calls.push(call)) == match call {
            HostCall::BeginGroup(id, _, _) => begun(calls).push(id),
            _ => begun(calls),
        },
{
    assert(calls.push(call).drop_last() =~= calls);
}

pub proof fn lemma_begun_concat(a: Calls, b: Calls)
    ensures
        begun(a + b) == begun(a) + begun(b),
    decreases b.len(),
{
    if b.len() == 0 {
        assert(a + b =~= a);
        assert(begun(a) + begun(b) =~= begun(a));
    } else {
        lemma_begun_concat(a, b.drop_last());
        assert((a + b).drop_last() =~= a + b.drop_last());
        assert(begun(a + b) =~= begun(a) + begun(b));
    }
}

/// What the engine can learn from its host at one moment.
pub struct Env {
    pub seen: (usize, usize),
    pub clip: Option<Seq<char>>,
}

pub open spec fn env<H: VimHost>(host: H) -> Env {
    Env { seen: host.seen_lines(), clip: host.clip() }
}

/// One thing that the engine told its host.
pub enum HostCall {
    Scroll(int),
    ScrollAnchored(int, ScrollAnchor),
    Highlights(Seq<(usize, usize)>, Option<(usize, usize)>),
    /// An undo group begins: its id, the cursor, and the text before it.
    BeginGroup(u64, usize, Doc),
    /// One undo is asked for.
    Undo(Asked),
    Redo(Asked),
    Changed,
    Copy(Seq<char>),
    Bell,
    /// The text is to be saved.
    Save(Doc),
    Close(bool),
    Status(Seq<char>),
    Action(Seq<char>, bool),
}

} // verus!
