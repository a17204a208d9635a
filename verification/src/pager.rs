//! Read-only pager: drive the engine over a flattened text, and read
//! selections back.
use crate::buffer::{VimBuffer, VimBufferMut};
use crate::cells::{
    cells, char_len, chars_in, lemma_cells_well_formed, lemma_chars_in_cells, width,
};
use crate::doc::{max, min, splice, Doc};
use crate::drive::{all_alike, steady, what_is_shown_is_seen, Moment};
use crate::engine::new_vim;
use crate::flat::{ranges, selection_spans, spans, Group};
use crate::groups::read_only_text_stays;
use crate::host::{
    all_declined, asked, declined, env, told_is_heard, Calls, Env, HostCall, ScrollAnchor, VimHost,
};
use crate::key::{char_stroke, Key, Stroke};
use crate::mode::{Mode, VisualKind};
use crate::registers::UNNAMED;
use crate::search::{opt_pair, pairs};
use crate::shifting::lemma_newline_blanks;
use crate::state::{text_of, Ctx, Cursor, KeyResult, Vim, VimState, World};
use crate::strs::{chars_of, copy_str};
use crate::text::{
    ceil_at, ceil_in, cells_of, char_before, copy_out, floor_at, floor_in, lemma_ceil_in,
    lemma_floor_in, lemma_newline_doc, lemma_sound, lemma_starts_up_to, line_holding, line_starts,
    newline_doc, offsets, sound, starts_up_to,
};
use std::ops::Range;
use vstd::prelude::*;

verus! {

// ---- read-only vim buffer ------------------------------------------------------------------------

/// A read-only buffer over flattened text (line index precomputed).
///
/// The engine's editing operations are all no-ops: a pager never mutates its
/// content, and the engine tolerates that unchanged.
///
/// Note: the inherent [`PagerBuf::line_start`] / [`PagerBuf::line_end`] take
/// a **byte offset** and return the containing line's start/end — they shadow
/// the `VimBuffer` trait's line-index-based helpers of the same names, and
/// are what line-visual selection expansion uses.
pub struct PagerBuf {
    text: String,
    cells: Vec<Option<char>>,
    starts: Vec<usize>,
}

impl PagerBuf {
    /// The text.
    pub closed spec fn chars(self) -> Seq<char> {
        self.text@
    }

    #[verifier::type_invariant]
    spec fn indexed(self) -> bool {
        &&& self.cells@ == cells(self.text@)
        &&& offsets(self.starts@) == starts_up_to(self.cells@, self.cells.len() as int)
    }

    spec fn model(self) -> Doc {
        newline_doc(cells(self.text@))
    }

    /// The index holds what the model says.
    proof fn lemma_indexed(self)
        requires
            self.indexed(),
        ensures
            self.model().wf(),
            self.doc() == self.model(),
            self.doc().cells == self.cells@,
            self.starts.len() > 0,
            self.starts@[0] == 0,
            forall|i: int|
                0 <= i < self.starts.len() ==> #[trigger] self.starts@[i] == self.doc().starts[i],
            self.starts.len() == self.doc().starts.len(),
            forall|a: int, b: int|
                0 <= a < b < self.starts.len() ==> #[trigger] self.starts@[a]
                    < #[trigger] self.starts@[b],
    {
        lemma_cells_well_formed(self.text@);
        let all = offsets(self.starts@);
        assert(all.len() == self.starts.len());
        lemma_starts_up_to(self.cells@, self.cells.len() as int);
        lemma_newline_doc(self.cells@);
        assert forall|i: int| 0 <= i < self.starts.len() implies #[trigger] self.starts@[i]
            == self.doc().starts[i] by {
            assert(all[i] == self.starts@[i]);
        }
        assert(all[0] == 0);
        assert forall|a: int, b: int| 0 <= a < b < self.starts.len() implies #[trigger] self.starts@[a]
            < #[trigger] self.starts@[b] by {
            assert(all[a] < all[b]);
        }
    }

    /// The model holds the text and nothing else.
    proof fn lemma_text(self)
        requires
            self.indexed(),
        ensures
            self.chars() == chars_in(self.doc().cells),
    {
        self.lemma_indexed();
        lemma_chars_in_cells(self.text@);
    }

    pub fn new(text: String) -> (b: Self)
        ensures
            b.chars() == text@,
            b.doc() == newline_doc(cells(text@)),
    {
        let all = cells_of(text.as_str());
        let starts = line_starts(&all);
        let b = PagerBuf { text, cells: all, starts };
        proof {
            b.lemma_indexed();
        }
        b
    }

    pub fn text(&self) -> (s: &str)
        ensures
            s@ == self.chars(),
    {
        self.text.as_str()
    }

    /// Start offset of the line containing byte offset `offset`.
    pub fn line_start(&self, offset: usize) -> (o: usize)
        ensures
            o == self.doc().line_start(self.doc().line_of(min(offset as int, self.doc().len()))),
    {
        let line = self.line_near(offset);
        VimBuffer::line_start(self, line)
    }

    /// End offset (before the newline, if any) of the line containing `offset`.
    pub fn line_end(&self, offset: usize) -> (o: usize)
        ensures
            o == self.doc().line_end(self.doc().line_of(min(offset as int, self.doc().len()))),
    {
        let line = self.line_near(offset);
        VimBuffer::line_end(self, line)
    }

    fn line_near(&self, offset: usize) -> (l: usize)
        ensures
            l == self.doc().line_of(min(offset as int, self.doc().len())),
    {
        let n = self.len();
        self.offset_to_line(
            if offset <= n {
                offset
            } else {
                n
            },
        )
    }
}

impl VimBuffer for PagerBuf {
    closed spec fn doc(&self) -> Doc {
        sound(self.model())
    }

    proof fn doc_wf(&self) {
        lemma_sound(self.model());
    }

    fn len(&self) -> (n: usize) {
        proof {
            use_type_invariant(self);
            self.lemma_indexed();
        }
        self.cells.len()
    }

    fn line_count(&self) -> (n: usize) {
        proof {
            use_type_invariant(self);
            self.lemma_indexed();
        }
        self.starts.len()
    }

    fn char_at(&self, offset: usize) -> (c: Option<char>) {
        proof {
            use_type_invariant(self);
            self.lemma_indexed();
        }
        if offset < self.cells.len() {
            self.cells[offset]
        } else {
            None
        }
    }

    fn prev_char_offset(&self, offset: usize) -> (p: Option<usize>) {
        proof {
            use_type_invariant(self);
            self.lemma_indexed();
        }
        char_before(&self.cells, offset)
    }

    fn line_range(&self, line: usize) -> (r: Range<usize>) {
        proof {
            use_type_invariant(self);
            self.lemma_indexed();
        }
        let n = self.cells.len();
        if line >= self.starts.len() {
            return n..n;
        }
        if line + 1 < self.starts.len() {
            self.starts[line]..self.starts[line + 1]
        } else {
            self.starts[line]..n
        }
    }

    fn offset_to_line(&self, offset: usize) -> (l: usize) {
        proof {
            use_type_invariant(self);
            self.lemma_indexed();
            assert(offsets(self.starts@) =~= self.doc().starts);
        }
        line_holding(&self.starts, offset)
    }

    /// Rounded out to whole characters; nothing where the range runs beyond
    /// the text or backwards.
    open spec fn piece(d: Doc, a: int, b: int) -> Seq<char> {
        let s = floor_in(d.cells, a);
        let e = ceil_in(d.cells, b);
        if s <= e <= d.len() {
            d.slice(s, e)
        } else {
            Seq::empty()
        }
    }

    proof fn piece_exact(d: Doc, a: int, b: int) {
        lemma_floor_in(d.cells, a);
        lemma_ceil_in(d.cells, b);
        assert(floor_in(d.cells, a) == a);
        assert(ceil_in(d.cells, b) == b);
        assert(Self::piece(d, a, b) == d.slice(a, b));
    }

    fn slice(&self, range: Range<usize>) -> (s: String) {
        proof {
            use_type_invariant(self);
            self.lemma_indexed();
            if self.doc().is_range(range.start as int, range.end as int) {
                Self::piece_exact(self.doc(), range.start as int, range.end as int);
            }
        }
        let s = floor_at(&self.cells, range.start);
        let e = ceil_at(&self.cells, range.end);
        if s <= e && e <= self.cells.len() {
            copy_out(&self.cells, s, e)
        } else {
            let none = String::new();
            proof {
                assert(none@ =~= Seq::empty());
            }
            none
        }
    }
}

impl VimBufferMut for PagerBuf {
    open spec fn editable(&self) -> bool {
        false
    }

    open spec fn edition(&self) -> u64 {
        0
    }

    open spec fn next_edition(n: u64) -> u64 {
        n
    }

    open spec fn doc_of(t: Seq<Option<char>>) -> Doc {
        newline_doc(t)
    }

    open spec fn edited(d: Doc, a: int, b: int, with: Seq<char>) -> Doc {
        newline_doc(splice(d.cells, a, b, cells(with)))
    }

    open spec fn takes(with: Seq<char>) -> bool {
        true
    }

    proof fn edited_exact(d: Doc, a: int, b: int, with: Seq<char>) {
    }

    proof fn blanks_join_their_line(d: Doc, i: int, blanks: Seq<char>) {
        lemma_newline_blanks(d, i, blanks);
    }

    fn insert_text(&mut self, offset: usize, text: &str) {
    }

    fn delete_range(&mut self, range: Range<usize>) {
    }
}

// ---- pager state machine -------------------------------------------------------------------------

/// Host side effects for the pager: a huge viewport (scrolling belongs to the
/// host UI) and a clipboard sink so `y` can be read back.
pub struct PagerHost {
    pub clip: Option<String>,
    /// Everything that the engine told this host.
    pub told: Ghost<Calls>,
}

/// What a [`PagerHost`] holds.
pub struct Sink {
    pub copied: Option<Seq<char>>,
    pub told: Calls,
}

impl View for PagerHost {
    type V = Sink;

    open spec fn view(&self) -> Sink {
        Sink { copied: text_of(self.clip), told: self.told@ }
    }
}

impl Sink {
    /// What is left of one call of the engine.
    pub open spec fn after(self, call: HostCall) -> Sink {
        let p = match call {
            HostCall::Copy(text) => Sink { copied: Some(text), ..self },
            _ => self,
        };
        Sink { told: self.told.push(call), ..p }
    }

    /// What is left of calls of the engine, one after the other.
    pub open spec fn served(self, calls: Calls) -> Sink
        decreases calls.len(),
    {
        if calls.len() == 0 {
            self
        } else {
            self.served(calls.drop_last()).after(calls.last())
        }
    }
}

proof fn lemma_serves(before: PagerHost, after: PagerHost, call: HostCall)
    requires
        after@ == before@.after(call),
        declined(call),
    ensures
        forall|h: PagerHost, calls: Calls|
            #[trigger] before.serves(&h, calls) ==> after.serves(&h, calls.push(call)),
{
    assert forall|h: PagerHost, calls: Calls| #[trigger] before.serves(&h, calls) implies after.serves(
        &h,
        calls.push(call),
    ) by {
        assert(calls.push(call).drop_last() =~= calls);
    }
}

impl Default for PagerHost {
    fn default() -> (h: Self)
        ensures
            h@ == (Sink { copied: None, told: Seq::empty() }),
    {
        PagerHost { clip: None, told: Ghost(Seq::empty()) }
    }
}

impl VimHost for PagerHost {
    open spec fn told(&self) -> Calls {
        self.told@
    }

    open spec fn serves(&self, before: &Self, calls: Calls) -> bool {
        self@ == before@.served(calls) && all_declined(calls)
    }

    proof fn serves_nothing(&self) {
    }

    open spec fn seen_lines(&self) -> (usize, usize) {
        (0, 1_000_000)
    }

    open spec fn clip(&self) -> Option<Seq<char>> {
        None
    }

    fn viewport(&self) -> (r: (usize, usize)) {
        (0, 1_000_000)
    }

    fn scroll_to_line(&mut self, line: usize)
        ensures
            final(self)@ == old(self)@.after(HostCall::Scroll(line as int)),
    {
        proof {
            self.told@ = self.told@.push(HostCall::Scroll(line as int));
            lemma_serves(*old(self), *self, HostCall::Scroll(line as int));
        }
    }

    fn scroll_to_line_anchored(&mut self, line: usize, anchor: ScrollAnchor)
        ensures
            final(self)@ == old(self)@.after(HostCall::ScrollAnchored(line as int, anchor)),
    {
        proof {
            self.told@ = self.told@.push(HostCall::ScrollAnchored(line as int, anchor));
            lemma_serves(*old(self), *self, HostCall::ScrollAnchored(line as int, anchor));
        }
    }

    fn clipboard_write(&mut self, text: &str)
        ensures
            final(self)@ == old(self)@.after(HostCall::Copy(text@)),
    {
        self.clip = Some(copy_str(text));
        proof {
            self.told@ = self.told@.push(HostCall::Copy(text@));
            lemma_serves(*old(self), *self, HostCall::Copy(text@));
        }
    }

    fn clipboard_read(&self) -> (r: Option<String>) {
        None
    }

    fn set_search_highlights(&mut self, matches: &[Range<usize>], current: Option<Range<usize>>)
        ensures
            final(self)@ == old(self)@.after(HostCall::Highlights(pairs(matches@), opt_pair(current))),
    {
        proof {
            self.told@ = self.told@.push(HostCall::Highlights(pairs(matches@), opt_pair(current)));
            lemma_serves(*old(self), *self, HostCall::Highlights(pairs(matches@), opt_pair(current)));
        }
    }

    fn begin_undo_group<B: VimBuffer>(&mut self, buf: &B, id: u64, cursor_offset: usize)
        ensures
            final(self)@ == old(self)@.after(HostCall::BeginGroup(id, cursor_offset, buf.doc())),
    {
        proof {
            self.told@ = self.told@.push(HostCall::BeginGroup(id, cursor_offset, buf.doc()));
            lemma_serves(*old(self), *self, HostCall::BeginGroup(id, cursor_offset, buf.doc()));
        }
    }

    fn undo<B: VimBufferMut>(&mut self, buf: &mut B) -> (r: Option<usize>)
        ensures
            r is None,
            *final(buf) == *old(buf),
            final(self)@ == old(self)@.after(HostCall::Undo(asked(*old(buf), None, *old(buf)))),
    {
        proof {
            self.told@ = self.told@.push(HostCall::Undo(asked(*old(buf), None, *old(buf))));
            lemma_serves(*old(self), *self, HostCall::Undo(asked(*old(buf), None, *old(buf))));
        }
        None
    }

    fn redo<B: VimBufferMut>(&mut self, buf: &mut B) -> (r: Option<usize>)
        ensures
            r is None,
            *final(buf) == *old(buf),
            final(self)@ == old(self)@.after(HostCall::Redo(asked(*old(buf), None, *old(buf)))),
    {
        proof {
            self.told@ = self.told@.push(HostCall::Redo(asked(*old(buf), None, *old(buf))));
            lemma_serves(*old(self), *self, HostCall::Redo(asked(*old(buf), None, *old(buf))));
        }
        None
    }

    fn changed(&mut self)
        ensures
            final(self)@ == old(self)@.after(HostCall::Changed),
    {
        proof {
            self.told@ = self.told@.push(HostCall::Changed);
            lemma_serves(*old(self), *self, HostCall::Changed);
        }
    }

    fn bell(&mut self)
        ensures
            final(self)@ == old(self)@.after(HostCall::Bell),
    {
        proof {
            self.told@ = self.told@.push(HostCall::Bell);
            lemma_serves(*old(self), *self, HostCall::Bell);
        }
    }

    fn save<B: VimBuffer>(&mut self, buf: &B)
        ensures
            final(self)@ == old(self)@.after(HostCall::Save(buf.doc())),
    {
        proof {
            self.told@ = self.told@.push(HostCall::Save(buf.doc()));
            lemma_serves(*old(self), *self, HostCall::Save(buf.doc()));
        }
    }

    fn request_close_hinted(&mut self, force: bool)
        ensures
            final(self)@ == old(self)@.after(HostCall::Close(force)),
    {
        proof {
            self.told@ = self.told@.push(HostCall::Close(force));
            lemma_serves(*old(self), *self, HostCall::Close(force));
        }
    }

    fn status_message(&mut self, message: &str)
        ensures
            final(self)@ == old(self)@.after(HostCall::Status(message@)),
    {
        proof {
            self.told@ = self.told@.push(HostCall::Status(message@));
            lemma_serves(*old(self), *self, HostCall::Status(message@));
        }
    }

    fn dispatch_host_action_hinted(&mut self, id: &str, strict: bool)
        ensures
            final(self)@ == old(self)@.after(HostCall::Action(id@, strict)),
    {
        proof {
            self.told@ = self.told@.push(HostCall::Action(id@, strict));
            lemma_serves(*old(self), *self, HostCall::Action(id@, strict));
        }
    }
}

/// The visual-selection state machine over a [`PagerBuf`]: real vim keys in,
/// selection byte ranges out.
///
/// Only visual mode auto-activates (via [`Pager::enter_visual`]); whether
/// normal-mode navigation keys reach the engine is the host's routing
/// decision.
pub struct Pager {
    pub vim: VimState,
    pub buf: PagerBuf,
    pub host: PagerHost,
    pub active: bool,
}

/// The key that starts a selection, of lines or of characters.
pub open spec fn visual_key(line_mode: bool) -> Stroke {
    if line_mode {
        char_stroke('V')
    } else {
        char_stroke('v')
    }
}

impl Pager {
    /// Engine and text.
    pub open spec fn world(self) -> World {
        World { vim: self.vim@, doc: self.buf.doc(), editable: false, edition: 0 }
    }

    /// What the engine can learn from the pager.
    pub open spec fn env(self) -> Env {
        env(self.host)
    }

    /// The host is what that of `p` becomes by what the engine told it since,
    /// and the text is the same.
    pub open spec fn served(self, p: Pager) -> bool {
        &&& p.vim@.told.is_prefix_of(self.vim@.told)
        &&& self.host@ == p.host@.served(self.vim@.told.skip(p.vim@.told.len() as int))
        &&& self.buf.chars() == p.buf.chars()
        &&& self.buf.doc() == p.buf.doc()
    }

    /// The selection: its byte range and whether it is linewise. The
    /// character under the cursor belongs to it.
    pub open spec fn selected(self) -> Option<(int, int, bool)> {
        let d = self.buf.doc();
        match self.vim@.selection() {
            Some((a, c, kind)) => if !self.active {
                None
            } else {
                let lo = floor_in(d.cells, min(a as int, c as int));
                let cur = floor_in(d.cells, max(a as int, c as int));
                let hi = match d.char_at(cur) {
                    Some(ch) => cur + width(ch),
                    None => cur,
                };
                if kind == VisualKind::Line {
                    Some((d.line_start(d.line_of(lo)), d.line_end(d.line_of(hi)), true))
                } else {
                    Some((lo, hi, false))
                }
            },
            None => None,
        }
    }

    pub open spec fn selected_chars(self) -> Option<Seq<char>> {
        match self.selected() {
            Some((lo, hi, _)) => Some(PagerBuf::piece(self.buf.doc(), lo, hi)),
            None => None,
        }
    }

    pub fn new(text: String) -> (p: Self)
        ensures
            p.vim@ == new_vim(),
            p.buf.chars() == text@,
            p.buf.doc() == newline_doc(cells(text@)),
            p.host@ == (Sink { copied: None, told: Seq::empty() }),
            !p.active,
    {
        Pager {
            vim: VimState::new(),
            buf: PagerBuf::new(text),
            host: PagerHost::default(),
            active: false,
        }
    }

    pub fn set_cursor(&mut self, offset: usize)
        ensures
            final(self).vim@ == (Vim {
                cursor: Cursor {
                    offset: min(offset as int, old(self).buf.doc().len()) as usize,
                    desired_col: None,
                },
                ..old(self).vim@
            }),
            final(self).buf == old(self).buf,
            final(self).host == old(self).host,
            final(self).active == old(self).active,
    {
        let n = self.buf.len();
        self.vim.cursor = Cursor {
            offset: if offset <= n {
                offset
            } else {
                n
            },
            desired_col: None,
        };
    }

    pub fn cursor_offset(&self) -> (o: usize)
        ensures
            o == self.vim@.cursor.offset,
    {
        self.vim.cursor.offset
    }

    /// (byte length, line count) for status bars.
    pub fn buf_stats(&self) -> (r: (usize, usize))
        ensures
            r.0 == self.buf.doc().len(),
            r.1 == self.buf.doc().line_count(),
    {
        (self.buf.len(), self.buf.line_count())
    }

    fn drive(&mut self, key: Key) -> (r: KeyResult)
        ensures
            exists|moments: Seq<Moment>|
                all_alike(moments, old(self).env()) && (final(self).world(), r)
                    == #[trigger] old(self).world().handle_key::<PagerBuf>(key@, moments),
            final(self).active == old(self).active,
            final(self).served(*old(self)),
    {
        let ghost p = *self;
        let ghost w = self.world();
        let ghost stroke = key@;
        proof {
            use_type_invariant(&self.buf);
            self.buf.lemma_text();
        }
        let r = {
            let mut ctx = Ctx { buf: &mut self.buf, host: &mut self.host };
            self.vim.handle_key(&mut ctx, key)
        };
        proof {
            let moments = choose|moments: Seq<Moment>|
                w.shows::<PagerBuf, PagerHost>(stroke, p.host, moments) && (self.world(), r)
                    == #[trigger] w.handle_key::<PagerBuf>(stroke, moments);
            what_is_shown_is_seen::<PagerBuf, PagerHost>(w, stroke, p.host, moments);
            assert(steady::<PagerHost>());
            read_only_text_stays::<PagerBuf>(w, stroke, moments);
            told_is_heard(self.host, self.vim@.told, p.host, p.vim@.told);
            use_type_invariant(&self.buf);
            self.buf.lemma_text();
        }
        r
    }

    /// Enter visual (charwise) or visual-line mode at the cursor.
    pub fn enter_visual(&mut self, line_mode: bool)
        ensures
            exists|moments: Seq<Moment>|
                all_alike(moments, old(self).env()) && final(self).world() == (#[trigger] old(
                    self,
                ).world().handle_key::<PagerBuf>(visual_key(line_mode), moments)).0,
            final(self).active == (final(self).vim@.mode is Visual),
            final(self).served(*old(self)),
    {
        let key = if line_mode {
            Key::char('V')
        } else {
            Key::char('v')
        };
        self.drive(key);
        self.active = self.vim.mode.is_visual();
    }

    /// All keys while the pager is active.
    pub fn feed(&mut self, key: Key) -> (r: KeyResult)
        ensures
            exists|moments: Seq<Moment>|
                all_alike(moments, old(self).env()) && (final(self).world(), r)
                    == #[trigger] old(self).world().handle_key::<PagerBuf>(key@, moments),
            final(self).active == (old(self).active && final(self).vim@.mode is Visual),
            final(self).served(*old(self)),
    {
        let r = self.drive(key);
        if !self.vim.mode.is_visual() {
            self.active = false;
        }
        r
    }

    /// Yanked text: the host clipboard sink first (the `"+` path), then the
    /// engine's unnamed register (plain `y` after visual mode exits).
    pub fn take_clip(&mut self) -> (r: Option<String>)
        ensures
            text_of(r) == match old(self).host@.copied {
                Some(text) => Some(text),
                None => match old(self).vim@.registers.slot(UNNAMED) {
                    Some(slot) => if slot.text.len() > 0 {
                        Some(slot.text)
                    } else {
                        None
                    },
                    None => None,
                },
            },
            final(self).host@ == (Sink { copied: None, ..old(self).host@ }),
            final(self).vim == old(self).vim,
            final(self).buf == old(self).buf,
            final(self).active == old(self).active,
    {
        if let Some(text) = self.host.clip.take() {
            return Some(text);
        }
        if let Some(reg) = self.vim.registers.get(UNNAMED) {
            if !reg.text.as_str().is_empty() {
                return Some(copy_str(reg.text.as_str()));
            }
        }
        None
    }

    /// Current selection: `(byte range, is linewise)`.
    pub fn selection(&self) -> (r: Option<(Range<usize>, bool)>)
        ensures
            r is Some == self.selected() is Some,
            r matches Some((range, line)) ==> self.selected() == Some(
                (range.start as int, range.end as int, line),
            ),
    {
        if !self.active {
            return None;
        }
        let (a, c, kind) = match self.vim.visual_selection() {
            Some(s) => s,
            None => {
                return None;
            },
        };
        proof {
            use_type_invariant(&self.buf);
            self.buf.lemma_indexed();
        }
        let (first, last) = if a <= c {
            (a, c)
        } else {
            (c, a)
        };
        let lo = floor_at(&self.buf.cells, first);
        // Charwise: include the character under the cursor (hi ends at that
        // character's last byte; the engine parks the cursor on the starting
        // byte, and ceil-to-boundary alone would exclude it exactly at the
        // boundary).
        let cur = floor_at(&self.buf.cells, last);
        proof {
            self.buf.doc().lemma_char_fits(cur as int);
        }
        let hi: usize = match self.buf.char_at(cur) {
            Some(ch) => cur + char_len(ch),
            None => cur,
        };
        if kind == VisualKind::Line {
            Some((self.buf.line_start(lo)..self.buf.line_end(hi), true))
        } else {
            Some((lo..hi, false))
        }
    }

    pub fn selected_text(&self) -> (r: Option<String>)
        ensures
            text_of(r) == self.selected_chars(),
    {
        match self.selection() {
            Some((range, _)) => Some(self.buf.slice(range)),
            None => None,
        }
    }

    /// Selection coverage of one piece group: `[(piece index, piece-local
    /// byte range)]`, or `None` when inactive or the group is not covered.
    pub fn group_sel_spans<S>(&self, group: &Group<S>) -> (r: Option<Vec<(usize, Range<usize>)>>)
        requires
            self.selected() matches Some((_, _, false)) ==> forall|i: int|
                0 <= i < group.pieces.len() ==> (#[trigger] group.pieces@[i]).flat.start
                    <= group.pieces@[i].flat.end,
        ensures
            match self.selected() {
                Some((a, b, line)) => {
                    &&& r is Some == (spans(group@.runs, a, b, line).len() > 0)
                    &&& r matches Some(v) ==> ranges(v@) == spans(group@.runs, a, b, line)
                },
                None => r is None,
            },
    {
        match self.selection() {
            Some((sel, line)) => selection_spans(group, sel, line),
            None => None,
        }
    }

    /// Command-line prompt string (`/` search while visual is active).
    pub fn cmdline_prompt(&self) -> (r: Option<String>)
        ensures
            text_of(r) == match self.vim@.mode {
                Mode::CommandLine { prompt } => Some(seq![prompt] + self.vim@.cmdline.buffer),
                _ => None,
            },
    {
        match self.vim.mode {
            Mode::CommandLine { prompt } => {
                let mut s = String::new();
                s.push(prompt);
                s.push_str(self.vim.cmdline.buffer.as_str());
                proof {
                    assert(s@ =~= seq![prompt] + self.vim@.cmdline.buffer);
                }
                Some(s)
            },
            _ => None,
        }
    }

    /// Visual mode label for status bars.
    pub fn mode_label(&self) -> (r: Option<&'static str>)
        ensures
            match (self.active, self.vim@.mode) {
                (true, Mode::Visual { kind }) => r is Some && r->0@ == if kind == VisualKind::Line {
                    "V-LINE"@
                } else {
                    "VISUAL"@
                },
                _ => r is None,
            },
    {
        if !self.active {
            return None;
        }
        match self.vim.mode {
            Mode::Visual { kind } => if kind == VisualKind::Line {
                Some("V-LINE")
            } else {
                Some("VISUAL")
            },
            _ => None,
        }
    }
}

/// Selection character count for status bars.
pub fn selected_char_count(pager: &Pager) -> (n: usize)
    ensures
        n == match pager.selected_chars() {
            Some(s) => s.len() as int,
            None => 0,
        },
{
    match pager.selected_text() {
        Some(t) => chars_of(t.as_str()).len(),
        None => 0,
    }
}

} // verus!
