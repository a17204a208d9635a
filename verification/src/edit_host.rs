//! The side effects of an edit box, collected for the view to carry out.
use crate::buffer::{VimBuffer, VimBufferMut};
use crate::drive::steady;
use crate::host::{
    all_declined, asked, declined, env, heard_since, Calls, HostCall, ScrollAnchor, VimHost,
};
use crate::lines::rows_of;
use crate::search::{opt_pair, pair_of, pairs};
use crate::state::{text_of, texts_of};
use crate::strs::{copy_str, split_at};
use std::ops::Range;
use vstd::prelude::*;

verus! {

pub struct EditHost {
    pub viewport: (usize, usize),
    pub scroll_request: Option<(usize, ScrollAnchor)>,
    pub highlights: Vec<Range<usize>>,
    pub current_highlight: Option<Range<usize>>,
    /// Text for the system clipboard that has not left yet.
    pub pending_clipboard: Option<String>,
    /// The system clipboard, as last seen.
    pub clipboard: Option<String>,
    /// The lines and the cursor before the open undo group.
    pub group_snapshot: Option<(Vec<String>, usize)>,
    pub open_group: Option<u64>,
    pub pending_status: Option<String>,
    pub save_requested: bool,
    pub close_requested: bool,
    /// Everything that the engine told this host.
    pub told: Ghost<Calls>,
}

/// What an [`EditHost`] holds.
pub struct Pending {
    pub viewport: (usize, usize),
    pub scroll: Option<(usize, ScrollAnchor)>,
    pub highlights: Seq<(usize, usize)>,
    pub current: Option<(usize, usize)>,
    pub copied: Option<Seq<char>>,
    pub clip: Option<Seq<char>>,
    pub snapshot: Option<(Seq<Seq<char>>, usize)>,
    pub group: Option<u64>,
    pub status: Option<Seq<char>>,
    pub save: bool,
    pub close: bool,
    pub told: Calls,
}

impl View for EditHost {
    type V = Pending;

    open spec fn view(&self) -> Pending {
        Pending {
            viewport: self.viewport,
            scroll: self.scroll_request,
            highlights: pairs(self.highlights@),
            current: opt_pair(self.current_highlight),
            copied: text_of(self.pending_clipboard),
            clip: text_of(self.clipboard),
            snapshot: match self.group_snapshot {
                Some((lines, cursor)) => Some((texts_of(lines@), cursor)),
                None => None,
            },
            group: self.open_group,
            status: text_of(self.pending_status),
            save: self.save_requested,
            close: self.close_requested,
            told: self.told@,
        }
    }
}

/// Nothing collected.
pub open spec fn nothing_pending() -> Pending {
    Pending {
        viewport: (0, 0),
        scroll: None,
        highlights: Seq::empty(),
        current: None,
        copied: None,
        clip: None,
        snapshot: None,
        group: None,
        status: None,
        save: false,
        close: false,
        told: Seq::empty(),
    }
}

impl Pending {
    /// What is left of one call of the engine.
    pub open spec fn after(self, call: HostCall) -> Pending {
        let p = match call {
            HostCall::Scroll(line) => Pending {
                scroll: Some((line as usize, ScrollAnchor::Cursor)),
                ..self
            },
            HostCall::ScrollAnchored(line, anchor) => Pending {
                scroll: Some((line as usize, anchor)),
                ..self
            },
            HostCall::Highlights(highlights, current) => Pending { highlights, current, ..self },
            HostCall::BeginGroup(id, cursor, d) => if self.group == Some(id) {
                self
            } else {
                Pending {
                    snapshot: Some((split_at(d.slice(0, d.len()), '\n'), cursor)),
                    group: Some(id),
                    ..self
                }
            },
            HostCall::Copy(text) => Pending { copied: Some(text), ..self },
            HostCall::Save(_) => Pending { save: true, ..self },
            HostCall::Close(_) => Pending { close: true, ..self },
            HostCall::Status(message) => Pending { status: Some(message), ..self },
            _ => self,
        };
        Pending { told: self.told.push(call), ..p }
    }

    /// What is left of calls of the engine, one after the other.
    pub open spec fn served(self, calls: Calls) -> Pending
        decreases calls.len(),
    {
        if calls.len() == 0 {
            self
        } else {
            self.served(calls.drop_last()).after(calls.last())
        }
    }
}

proof fn lemma_serves(before: EditHost, after: EditHost, call: HostCall)
    requires
        after@ == before@.after(call),
        declined(call),
    ensures
        forall|h: EditHost, calls: Calls|
            #[trigger] before.serves(&h, calls) ==> after.serves(&h, calls.push(call)),
{
    assert forall|h: EditHost, calls: Calls| #[trigger] before.serves(&h, calls) implies after.serves(
        &h,
        calls.push(call),
    ) by {
        assert(calls.push(call).drop_last() =~= calls);
    }
}

impl EditHost {
    pub fn new() -> (h: Self)
        ensures
            h@ == nothing_pending(),
    {
        let h = EditHost {
            viewport: (0, 0),
            scroll_request: None,
            highlights: Vec::new(),
            current_highlight: None,
            pending_clipboard: None,
            clipboard: None,
            group_snapshot: None,
            open_group: None,
            pending_status: None,
            save_requested: false,
            close_requested: false,
            told: Ghost(Seq::empty()),
        };
        proof {
            assert(h@.highlights =~= Seq::empty());
        }
        h
    }

    /// Ends the open undo group and hands out what it started from.
    pub fn take_group_snapshot(&mut self) -> (r: Option<(Vec<String>, usize)>)
        ensures
            match r {
                Some((lines, cursor)) => old(self)@.snapshot == Some((texts_of(lines@), cursor)),
                None => old(self)@.snapshot is None,
            },
            final(self)@ == (Pending { snapshot: None, group: None, ..old(self)@ }),
    {
        self.open_group = None;
        self.group_snapshot.take()
    }
}

pub(crate) fn copy_slice(v: &[Range<usize>]) -> (r: Vec<Range<usize>>)
    ensures
        pairs(r@) == pairs(v@),
{
    let mut r: Vec<Range<usize>> = Vec::new();
    let mut i: usize = 0;
    proof {
        assert(pairs(r@) =~= pairs(v@).take(0));
    }
    while i < v.len()
        invariant
            i <= v.len(),
            pairs(r@) == pairs(v@).take(i as int),
        decreases v.len() - i,
    {
        let ghost before = r@;
        r.push(v[i].start..v[i].end);
        proof {
            assert(pairs(r@) =~= pairs(before).push(pair_of(v@[i as int])));
            assert(pairs(v@).take(i + 1) =~= pairs(v@).take(i as int).push(pair_of(v@[i as int])));
        }
        i = i + 1;
    }
    proof {
        assert(pairs(v@).take(i as int) =~= pairs(v@));
    }
    r
}

proof fn lemma_served_shows(p: Pending, calls: Calls)
    ensures
        p.served(calls).viewport == p.viewport,
        p.served(calls).clip == p.clip,
    decreases calls.len(),
{
    if calls.len() > 0 {
        lemma_served_shows(p, calls.drop_last());
    }
}

/// An edit box shows the same lines and the same clipboard, whatever the engine
/// tells its host: both change between two keys only.
pub proof fn a_box_is_steady()
    ensures
        steady::<EditHost>(),
{
    assert forall|h: EditHost, log: Calls, g: EditHost, since: Calls| #[trigger]
        heard_since(h, log, g, since) implies env(h) == env(g) by {
        reveal(heard_since);
        lemma_served_shows(g@, log.skip(since.len() as int));
    }
}

impl VimHost for EditHost {
    open spec fn told(&self) -> Calls {
        self.told@
    }

    open spec fn serves(&self, before: &Self, calls: Calls) -> bool {
        self@ == before@.served(calls) && all_declined(calls)
    }

    proof fn serves_nothing(&self) {
    }

    open spec fn seen_lines(&self) -> (usize, usize) {
        self.viewport
    }

    open spec fn clip(&self) -> Option<Seq<char>> {
        text_of(self.clipboard)
    }

    fn viewport(&self) -> (r: (usize, usize)) {
        self.viewport
    }

    fn scroll_to_line(&mut self, line: usize)
        ensures
            final(self)@ == old(self)@.after(HostCall::Scroll(line as int)),
    {
        self.scroll_request = Some((line, ScrollAnchor::Cursor));
        proof {
            self.told@ = self.told@.push(HostCall::Scroll(line as int));
            lemma_serves(*old(self), *self, HostCall::Scroll(line as int));
        }
    }

    fn scroll_to_line_anchored(&mut self, line: usize, anchor: ScrollAnchor)
        ensures
            final(self)@ == old(self)@.after(HostCall::ScrollAnchored(line as int, anchor)),
    {
        self.scroll_request = Some((line, anchor));
        proof {
            self.told@ = self.told@.push(HostCall::ScrollAnchored(line as int, anchor));
            lemma_serves(*old(self), *self, HostCall::ScrollAnchored(line as int, anchor));
        }
    }

    fn clipboard_write(&mut self, text: &str)
        ensures
            final(self)@ == old(self)@.after(HostCall::Copy(text@)),
    {
        self.pending_clipboard = Some(copy_str(text));
        proof {
            self.told@ = self.told@.push(HostCall::Copy(text@));
            lemma_serves(*old(self), *self, HostCall::Copy(text@));
        }
    }

    fn clipboard_read(&self) -> (r: Option<String>) {
        match &self.clipboard {
            Some(s) => Some(copy_str(s.as_str())),
            None => None,
        }
    }

    fn set_search_highlights(&mut self, matches: &[Range<usize>], current: Option<Range<usize>>)
        ensures
            final(self)@ == old(self)@.after(
                HostCall::Highlights(pairs(matches@), opt_pair(current)),
            ),
    {
        let ghost call = HostCall::Highlights(pairs(matches@), opt_pair(current));
        self.highlights = copy_slice(matches);
        self.current_highlight = current;
        proof {
            self.told@ = self.told@.push(call);
            lemma_serves(*old(self), *self, call);
        }
    }

    /// Edits that share an id share the snapshot of the first.
    fn begin_undo_group<B: VimBuffer>(&mut self, buf: &B, id: u64, cursor_offset: usize)
        ensures
            final(self)@ == old(self)@.after(HostCall::BeginGroup(id, cursor_offset, buf.doc())),
    {
        let open = match self.open_group {
            Some(open) => open == id,
            None => false,
        };
        if !open {
            proof {
                buf.doc_wf();
            }
            let text = buf.slice(0..buf.len());
            self.group_snapshot = Some((rows_of(text.as_str()), cursor_offset));
            self.open_group = Some(id);
        }
        proof {
            self.told@ = self.told@.push(HostCall::BeginGroup(id, cursor_offset, buf.doc()));
            lemma_serves(*old(self), *self, HostCall::BeginGroup(id, cursor_offset, buf.doc()));
        }
    }

    /// The view keeps the undo stack.
    fn undo<B: VimBufferMut>(&mut self, buf: &mut B) -> (r: Option<usize>)
        ensures
            r is None,
            *final(buf) == *old(buf),
            final(self)@ == old(self)@.after(HostCall::Undo(asked(*old(buf), None, *old(buf)))),
    {
        proof {
            self.told@ = self.told@.push(HostCall::Undo(asked(*old(buf), None, *old(buf))));
            lemma_serves(*old(self), *self, HostCall::Undo(asked(*old(buf), None, *old(buf))));
        }
        None
    }

    fn redo<B: VimBufferMut>(&mut self, buf: &mut B) -> (r: Option<usize>)
        ensures
            r is None,
            *final(buf) == *old(buf),
            final(self)@ == old(self)@.after(HostCall::Redo(asked(*old(buf), None, *old(buf)))),
    {
        proof {
            self.told@ = self.told@.push(HostCall::Redo(asked(*old(buf), None, *old(buf))));
            lemma_serves(*old(self), *self, HostCall::Redo(asked(*old(buf), None, *old(buf))));
        }
        None
    }

    fn changed(&mut self)
        ensures
            final(self)@ == old(self)@.after(HostCall::Changed),
    {
        proof {
            self.told@ = self.told@.push(HostCall::Changed);
            lemma_serves(*old(self), *self, HostCall::Changed);
        }
    }

    fn bell(&mut self)
        ensures
            final(self)@ == old(self)@.after(HostCall::Bell),
    {
        proof {
            self.told@ = self.told@.push(HostCall::Bell);
            lemma_serves(*old(self), *self, HostCall::Bell);
        }
    }

    fn save<B: VimBuffer>(&mut self, buf: &B)
        ensures
            final(self)@ == old(self)@.after(HostCall::Save(buf.doc())),
    {
        self.save_requested = true;
        proof {
            self.told@ = self.told@.push(HostCall::Save(buf.doc()));
            lemma_serves(*old(self), *self, HostCall::Save(buf.doc()));
        }
    }

    fn request_close(&mut self)
        ensures
            final(self)@ == (Pending { close: true, ..old(self)@ }),
    {
        self.close_requested = true;
    }

    fn request_close_hinted(&mut self, force: bool)
        ensures
            final(self)@ == old(self)@.after(HostCall::Close(force)),
    {
        self.request_close();
        proof {
            self.told@ = self.told@.push(HostCall::Close(force));
            lemma_serves(*old(self), *self, HostCall::Close(force));
        }
    }

    fn status_message(&mut self, message: &str)
        ensures
            final(self)@ == old(self)@.after(HostCall::Status(message@)),
    {
        self.pending_status = Some(copy_str(message));
        proof {
            self.told@ = self.told@.push(HostCall::Status(message@));
            lemma_serves(*old(self), *self, HostCall::Status(message@));
        }
    }

    fn buffer_name(&self) -> (s: &str)
        ensures
            s@ == "edit"@,
    {
        "edit"
    }

    fn dispatch_host_action_hinted(&mut self, id: &str, strict: bool)
        ensures
            final(self)@ == old(self)@.after(HostCall::Action(id@, strict)),
    {
        proof {
            self.told@ = self.told@.push(HostCall::Action(id@, strict));
            lemma_serves(*old(self), *self, HostCall::Action(id@, strict));
        }
    }
}

} // verus!
