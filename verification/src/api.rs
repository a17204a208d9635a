//! What a host reads and sets.
use crate::buffer::VimBufferMut;
use crate::cells::{cells, char_cells, lemma_cells_well_formed};
use crate::doc::{max, min, splice};
use crate::edits::behind;
use crate::host::{hears, HostCall, VimHost};
use crate::key::{strokes, Key, Stroke};
use crate::keymap::Keymaps;
use crate::mode::Mode;
use crate::ops::Operator;
use crate::options::Options;
use crate::shift::plus;
use crate::state::{Ctx, Vim, VimState, World};
use crate::strs::{byte_len, decimal, push_decimal};
use std::ops::Range;
use vstd::prelude::*;

verus! {

/// How an operator is typed.
pub open spec fn op_keys(op: Operator) -> Seq<char> {
    match op {
        Operator::Delete => "d"@,
        Operator::Change => "c"@,
        Operator::Yank => "y"@,
        Operator::IndentLeft => "<"@,
        Operator::IndentRight => ">"@,
        Operator::Lowercase => "gu"@,
        Operator::Uppercase => "gU"@,
        Operator::ToggleCase => "g~"@,
        Operator::Format => "gq"@,
    }
}

fn keys_of_op(op: Operator) -> (s: &'static str)
    ensures
        s@ == op_keys(op),
{
    match op {
        Operator::Delete => "d",
        Operator::Change => "c",
        Operator::Yank => "y",
        Operator::IndentLeft => "<",
        Operator::IndentRight => ">",
        Operator::Lowercase => "gu",
        Operator::Uppercase => "gU",
        Operator::ToggleCase => "g~",
        Operator::Format => "gq",
    }
}

/// Keys as they are written.
pub open spec fn notations(keys: Seq<Stroke>) -> Seq<char>
    decreases keys.len(),
{
    if keys.len() == 0 {
        Seq::empty()
    } else {
        notations(keys.drop_last()) + keys.last().notation()
    }
}

impl Vim {
    /// What is typed of a command so far: register, count, operator, keys and
    /// character, and the kind of a selection.
    pub open spec fn pending_text(self) -> Seq<char> {
        let register = match self.register {
            Some(r) => seq!['"', r],
            None => Seq::empty(),
        };
        let count = match self.count {
            Some(n) => decimal(n as int),
            None => match self.op_count {
                Some(n) => decimal(n as int),
                None => Seq::empty(),
            },
        };
        let op = match self.op {
            Some(op) => op_keys(op),
            None => Seq::empty(),
        };
        let arg = match (self.char_arg_cmd, self.char_arg) {
            (Some(_), Some(c)) => seq![c],
            _ => Seq::empty(),
        };
        let kind = match (self.mode, self.selection()) {
            (Mode::Visual { .. }, Some((_, _, kind))) => kind.label(),
            _ => Seq::empty(),
        };
        register + count + op + notations(self.cmd_seq) + arg + kind
    }
}

fn push_notations(s: &mut String, keys: &Vec<Key>)
    ensures
        final(s)@ == old(s)@ + notations(strokes(keys@)),
{
    let ghost before = s@;
    let ghost all = strokes(keys@);
    let mut i: usize = 0;
    proof {
        assert(all.take(0) =~= Seq::empty());
        assert(before + notations(all.take(0)) =~= before);
    }
    while i < keys.len()
        invariant
            i <= keys.len(),
            all == strokes(keys@),
            s@ == before + notations(all.take(i as int)),
        decreases keys.len() - i,
    {
        proof {
            assert(all.take(i + 1).drop_last() =~= all.take(i as int));
            assert(all.take(i + 1).last() == keys@[i as int]@);
        }
        let text = keys[i].notation();
        s.push_str(text.as_str());
        i = i + 1;
        proof {
            assert(s@ =~= before + notations(all.take(i as int)));
        }
    }
    proof {
        assert(all.take(i as int) =~= all);
    }
}

impl VimState {
    pub fn mode(&self) -> (m: Mode)
        ensures
            m == self@.mode,
    {
        self.mode
    }

    pub fn cursor_offset(&self) -> (o: usize)
        ensures
            o == self@.cursor.offset,
    {
        self.cursor.offset
    }

    /// Status-bar mode text (`-- INSERT --` etc.).
    pub fn mode_indicator(&self) -> (s: &'static str)
        ensures
            s@ == self@.mode.label(),
    {
        self.mode.indicator()
    }

    fn push_register(&self, s: &mut String)
        ensures
            final(s)@ == old(s)@ + match self@.register {
                Some(r) => seq!['"', r],
                None => Seq::empty(),
            },
    {
        let ghost before = s@;
        if let Some(r) = self.register {
            s.push('"');
            s.push(r);
            proof {
                assert(s@ =~= before + seq!['"', r]);
            }
        } else {
            proof {
                assert(s@ =~= before + Seq::<char>::empty());
            }
        }
    }

    fn push_count(&self, s: &mut String)
        ensures
            final(s)@ == old(s)@ + match self@.count {
                Some(n) => decimal(n as int),
                None => match self@.op_count {
                    Some(n) => decimal(n as int),
                    None => Seq::empty(),
                },
            },
    {
        let ghost before = s@;
        match (self.count, self.op_count) {
            (Some(n), _) => push_decimal(s, n as u64),
            (None, Some(n)) => push_decimal(s, n as u64),
            (None, None) => {
                proof {
                    assert(s@ =~= before + Seq::<char>::empty());
                }
            },
        }
    }

    /// Pending-key display for `showcmd` (e.g. `"3d"` while typing `3dd`).
    pub fn showcmd(&self) -> (s: String)
        ensures
            s@ == if self@.options.showcmd {
                self@.pending_text()
            } else {
                Seq::empty()
            },
    {
        let mut s = String::new();
        if !self.options.showcmd {
            proof {
                assert(s@ =~= Seq::empty());
            }
            return s;
        }
        self.push_register(&mut s);
        self.push_count(&mut s);
        if let Some(op) = self.op {
            s.push_str(keys_of_op(op));
        }
        push_notations(&mut s, &self.cmd_seq);
        if self.char_arg_cmd.is_some() {
            if let Some(c) = self.char_arg {
                s.push(c);
            }
        }
        if self.mode.is_visual() {
            if let Some((_, _, kind)) = self.visual_selection() {
                s.push_str(kind.indicator());
            }
        }
        proof {
            assert(s@ =~= self@.pending_text());
        }
        s
    }

    /// Cursor width hint: block in normal/visual modes, bar in insert.
    pub fn cursor_is_block(&self) -> (b: bool)
        ensures
            b == !self@.mode.inserting(),
    {
        !self.mode.is_inserting()
    }

    pub fn options_mut(&mut self) -> (o: &mut Options)
        ensures
            *o == old(self)@.options,
            final(self)@ == (Vim { options: *final(o), ..old(self)@ }),
    {
        &mut self.options
    }

    pub fn keymaps_mut(&mut self) -> (k: &mut Keymaps)
        ensures
            k@ == old(self)@.keymaps,
            final(self)@ == (Vim { keymaps: final(k)@, ..old(self)@ }),
    {
        &mut self.keymaps
    }

    /// The register currently recording a macro (`q`), for host status UI.
    pub fn macro_recording(&self) -> (r: Option<char>)
        ensures
            r == match self@.macro_capture {
                Some((reg, _)) => Some(reg),
                None => None,
            },
    {
        match &self.macro_capture {
            Some((reg, _)) => Some(*reg),
            None => None,
        }
    }

    /// Host-side recording suppression: while set, text placed into the
    /// buffer is NOT recorded for `.` repeat. Wrap IME composition preview
    /// mutations (the raw pinyin) with this; only the committed text should
    /// be repeatable.
    pub fn set_recording_suppressed(&mut self, suppressed: bool)
        ensures
            final(self)@ == (Vim { recording_suppressed: suppressed, ..old(self)@ }),
    {
        self.recording_suppressed = suppressed;
    }

    /// Platform plumbing (see [`VimState::take_pending_unknown_char`]).
    pub fn set_pending_unknown_char(&mut self, c: Option<char>)
        ensures
            final(self)@ == (Vim { pending_unknown_char: c, ..old(self)@ }),
    {
        self.pending_unknown_char = c;
    }

    /// Platform plumbing: the printable char the key interceptor declined in
    /// insert mode and which the platform will deliver a second time through
    /// the text-input path.
    pub fn take_pending_unknown_char(&mut self) -> (c: Option<char>)
        ensures
            c == old(self)@.pending_unknown_char,
            final(self)@ == (Vim { pending_unknown_char: None, ..old(self)@ }),
    {
        self.pending_unknown_char.take()
    }

    /// Whether each edit re-runs the hlsearch scan (default true). Huge-file
    /// hosts set false and call [`VimState::refresh_highlights`] on their own
    /// schedule (debounce/interval), keeping per-keystroke cost O(edit).
    pub fn set_hlsearch_live_update(&mut self, live: bool)
        ensures
            final(self)@ == (Vim { hlsearch_live_update: live, ..old(self)@ }),
    {
        self.hlsearch_live_update = live;
    }

    /// While set, `:action <unknown-id>` misses are silently ignored
    /// (host chooses whether the bridge reports; shared rc files contain
    /// mappings aimed at other apps).
    pub fn set_lenient_actions(&mut self, lenient: bool)
        ensures
            final(self)@ == (Vim { lenient_actions: lenient, ..old(self)@ }),
    {
        self.lenient_actions = lenient;
    }

    pub fn lenient_actions(&self) -> (b: bool)
        ensures
            b == self@.lenient_actions,
    {
        self.lenient_actions
    }
}

// ---- composed text -------------------------------------------------------------------------------

/// Where a cursor at `o` is once the host has replaced `[start, end)` by
/// `len` bytes: behind the new text if it touched the old one.
pub open spec fn after_commit(o: int, start: int, end: int, len: int) -> int {
    if start <= o <= end {
        min(start + len, usize::MAX as int)
    } else if o > end {
        min(o + max(len - max(end - start, 0), 0), usize::MAX as int)
    } else {
        o
    }
}

impl World {
    /// A range replaced by the host's text.
    #[verifier::opaque]
    pub open spec fn commit_text<B: VimBufferMut>(
        self,
        start: int,
        end: int,
        text: Seq<char>,
    ) -> World {
        let w = self.begin_edit().edit_replace::<B>(start, end, text);
        w.at(after_commit(w.cursor(), start, end, cells(text).len() as int)).say(HostCall::Changed)
    }
}

/// What is composed at the cursor is a preview: the text that is committed
/// takes its place without a trace of it, and giving up with an empty text
/// leaves the text as it was.
pub proof fn composition_is_replaced<B: VimBufferMut>(w: World, preview: Seq<char>, text: Seq<char>)
    requires
        w.editable,
        w.doc.wf(),
        w.vim.mode == Mode::Insert,
        w.cursor() <= w.doc.len(),
        w.doc.at_boundary(w.cursor()),
        preview.len() > 0,
        B::takes(preview),
        text.len() == 0 || B::takes(text),
        w.as_typed::<B>(preview) == preview,
        B::edited(w.doc, w.cursor(), w.cursor(), preview).wf(),
        B::edited(
            B::edited(w.doc, w.cursor(), w.cursor(), preview),
            w.cursor(),
            behind(w.cursor(), preview),
            Seq::empty(),
        ).wf(),
    ensures
        w.type_text::<B>(preview).commit_text::<B>(
            w.cursor(),
            behind(w.cursor(), preview),
            text,
        ).doc.cells == splice(w.doc.cells, w.cursor(), w.cursor(), cells(text)),
        text.len() == 0 ==> w.type_text::<B>(preview).commit_text::<B>(
            w.cursor(),
            behind(w.cursor(), preview),
            text,
        ).doc.cells == w.doc.cells,
{
    reveal(World::type_text);
    reveal(World::begin_edit);
    reveal(World::edit_insert);
    reveal(World::edit_replace);
    reveal(World::commit_text);
    let c = w.cursor();
    let n = cells(preview).len() as int;
    let e = B::edited(w.doc, c, c, preview);
    let shown = w.type_text::<B>(preview);
    B::edited_exact(w.doc, c, c, preview);
    lemma_cells_well_formed(preview);
    assert(w.begin_edit().as_typed::<B>(preview) == preview);
    assert(shown.doc == e);
    assert(cells(preview) =~= cells(preview.drop_last()) + char_cells(preview.last()));
    assert(n > 0);
    assert(e.cells[c] == cells(preview)[0]);
    assert(behind(c, preview) == c + n);
    if c + n < e.len() {
        assert(e.cells[c + n] == w.doc.cells[c]);
    }
    assert(e.is_range(c, c + n));
    crate::buffer::replaced_exact::<B>(e, c, c + n, text);
    assert(splice(e.cells, c, c + n, cells(text)) =~= splice(w.doc.cells, c, c, cells(text)));
    if text.len() == 0 {
        assert(cells(text) =~= Seq::empty());
        assert(splice(w.doc.cells, c, c, cells(text)) =~= w.doc.cells);
    }
}

fn committed(o: usize, start: usize, end: usize, len: usize) -> (r: usize)
    ensures
        r == after_commit(o as int, start as int, end as int, len as int),
{
    if start <= o && o <= end {
        plus(start, len)
    } else if o > end {
        let old_len: usize = if end >= start {
            end - start
        } else {
            0
        };
        plus(
            o,
            if len >= old_len {
                len - old_len
            } else {
                0
            },
        )
    } else {
        o
    }
}

impl VimState {
    /// Replace an arbitrary range (IME committed composition text). The
    /// cursor is placed at the end of the replacement when it touches it.
    pub fn replace_range<B: VimBufferMut, H: VimHost>(
        &mut self,
        ctx: &mut Ctx<B, H>,
        range: Range<usize>,
        text: &str,
    )
        ensures
            *final(final(ctx).buf) == *final(old(ctx).buf),
            *final(final(ctx).host) == *final(old(ctx).host),
            hears(*final(ctx).host, final(self)@.told, *old(ctx).host, old(self)@.told),
            final(ctx).world(*final(self)) == old(ctx).world(*old(self)).commit_text::<B>(
                range.start as int,
                range.end as int,
                text@,
            ),
            final(ctx).env() == old(ctx).env(),
    {
        proof {
            reveal(World::commit_text);
        }
        let (start, end) = (range.start, range.end);
        self.begin_edit(ctx);
        self.edit_replace(ctx, start..end, text);
        let at = committed(self.cursor.offset, start, end, byte_len(text));
        self.set_offset(at);
        self.notify_changed(ctx);
    }
}

} // verus!
