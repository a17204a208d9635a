//! The state of one editor pane over a rope: what a view shows and what it
//! does with clicks, pasted text and input methods. Painting is the view's.
use crate::buffer::VimBuffer;
use crate::cells::{cells, char_len, width};
use crate::dispatch::dispatch_text;
use crate::doc::{max, min, Doc};
use crate::drive::Moment;
use crate::edit::Input;
use crate::engine::new_vim;
use crate::host::{told_is_heard, Env};
use crate::key::parsed_sequence;
use crate::keymap::{ModeClass, Rhs};
use crate::mode::{Mode, VisualKind};
use crate::overlay::{compute_line_overlays, LineOverlayInputs, LineOverlays};
use crate::rope::{rope_doc, RopeBuffer};
use crate::search::opt_pair;
use crate::shift::plus;
use crate::snapshots::{fresh_desk, written_message, Desk, HostState};
use crate::state::{text_of, Ctx, Vim, VimState, World};
use crate::strs::{byte_len, chars_of, copy_str, decimal, push_decimal};
use crate::text::{byte_of_units, floor_in, sound, units_before};
use std::ops::Range;
use vstd::prelude::*;

verus! {

/// Columns of the line-number gutter.
pub const GUTTER_COLS: usize = 5;

pub struct Editor {
    pub buffer: RopeBuffer,
    pub host: HostState,
    pub vim: VimState,
    /// UTF-8 byte range of IME marked (composing) text.
    pub marked_range: Option<Range<usize>>,
    pub dragging: bool,
    pub status_message: Option<String>,
}

/// What an [`Editor`] holds.
pub struct Pane {
    pub text: Seq<char>,
    pub host: Desk,
    pub vim: Vim,
    pub marked: Option<(usize, usize)>,
    pub dragging: bool,
    pub status: Option<Seq<char>>,
}

impl View for Editor {
    type V = Pane;

    open spec fn view(&self) -> Pane {
        Pane {
            text: self.buffer.chars(),
            host: self.host@,
            vim: self.vim@,
            marked: opt_pair(self.marked_range),
            dragging: self.dragging,
            status: text_of(self.status_message),
        }
    }
}

impl Pane {
    pub open spec fn doc(self) -> Doc {
        sound(rope_doc(cells(self.text)))
    }

    /// Engine and text.
    pub open spec fn world(self) -> World {
        World { vim: self.vim, doc: self.doc(), editable: true, edition: 0 }
    }

    /// What the engine can learn from the pane.
    pub open spec fn env(self) -> Env {
        Env { seen: self.host.viewport, clip: self.host.clip }
    }

    /// Everything but engine, text and host is as in `p`, and the host is what
    /// it becomes by what the engine told it since.
    pub open spec fn framed(self, p: Pane) -> bool {
        &&& p.vim.told.is_prefix_of(self.vim.told)
        &&& p.host.answers(self.vim.told.skip(p.vim.told.len() as int))
        &&& self == (Pane {
            text: self.text,
            host: p.host.served(self.vim.told.skip(p.vim.told.len() as int)),
            vim: self.vim,
            ..p
        })
    }

    /// The line and the byte column of the cursor, as a status bar counts
    /// them: lines from 1, columns from 0.
    pub open spec fn line_col(self) -> (int, int) {
        let line = self.doc().line_of(self.vim.cursor.offset as int);
        (line + 1, self.vim.cursor.offset - self.doc().line_start(line))
    }

    /// The bytes of the selection, the character under its end included, and
    /// whether it is linewise.
    pub open spec fn selection_span(self) -> Option<(int, int, bool)> {
        let d = self.doc();
        match self.vim.selection() {
            Some((anchor, cursor, kind)) => {
                let lo = min(anchor as int, cursor as int);
                let hi = max(anchor as int, cursor as int);
                if kind == VisualKind::Line {
                    Some((d.line_start(d.line_of(lo)), d.line_stop(d.line_of(hi)), true))
                } else {
                    Some(
                        (
                            lo,
                            match d.char_at(hi) {
                                Some(c) => hi + width(c),
                                None => hi,
                            },
                            false,
                        ),
                    )
                }
            },
            None => None,
        }
    }
}

/// The mode as the status bar shows it.
pub open spec fn status_label(vim: Vim) -> Seq<char> {
    match vim.mode {
        Mode::Normal => "NORMAL"@,
        Mode::Insert => "-- INSERT --"@,
        Mode::Replace => "-- REPLACE --"@,
        Mode::Visual { kind } => "-- "@ + kind.label() + " --"@,
        Mode::CommandLine { prompt } => if prompt == ':' {
            ":"@ + vim.cmdline.buffer
        } else {
            "SEARCH "@ + seq![prompt] + vim.cmdline.buffer
        },
    }
}

/// A label flush right in the gutter, and the space behind it.
pub open spec fn gutter_cell(label: Seq<char>) -> Seq<char> {
    Seq::new(max(GUTTER_COLS - 1 - label.len(), 0) as nat, |i: int| ' ') + label + seq![' ']
}

/// The number of a line: its own, or its distance from the current one.
pub open spec fn line_label(line: int, current: int, relative: bool) -> int {
    if relative && line != current {
        if line > current {
            line - current
        } else {
            current - line
        }
    } else {
        line + 1
    }
}

/// The offset `n` characters behind `o`, within `end`.
pub open spec fn chars_on(d: Doc, o: int, end: int, n: int) -> int
    decreases n,
{
    if n <= 0 || o >= end {
        o
    } else {
        match d.next(o) {
            Some(next) => if next <= end {
                chars_on(d, next, end, n - 1)
            } else {
                o
            },
            None => o,
        }
    }
}

fn gutter_text_of(label: &str) -> (s: String)
    ensures
        s@ == gutter_cell(label@),
{
    let n = chars_of(label).len();
    let mut s = String::new();
    let mut i: usize = n;
    proof {
        assert(s@ =~= Seq::new(0, |i: int| ' '));
    }
    while i < GUTTER_COLS - 1
        invariant
            n <= i,
            i <= GUTTER_COLS - 1 || i == n,
            s@ == Seq::new((i - n) as nat, |i: int| ' '),
        decreases GUTTER_COLS - i,
    {
        s.push(' ');
        i = i + 1;
        proof {
            assert(s@ =~= Seq::new((i - n) as nat, |i: int| ' '));
        }
    }
    s.push_str(label);
    s.push(' ');
    proof {
        assert(s@ =~= gutter_cell(label@));
    }
    s
}

/// The pane lists at least so many lines.
pub const LEAST_LINES: usize = 24;

/// A line of the pane.
pub struct ShownLine {
    pub text: String,
    /// The line is in the text, not behind it.
    pub in_text: bool,
    /// The cursor is in the line.
    pub current: bool,
}

impl Editor {
    /// Full buffer text (for debugging/tests).
    pub fn text(&self) -> (s: String)
        ensures
            s@ == self@.text,
    {
        self.buffer.text()
    }

    pub fn new(initial_text: &str) -> (e: Self)
        ensures
            e@ == (Pane {
                text: initial_text@,
                host: fresh_desk(),
                vim: new_vim(),
                marked: None,
                dragging: false,
                status: None,
            }),
    {
        Editor {
            buffer: RopeBuffer::new(initial_text),
            host: HostState::new(),
            vim: VimState::new(),
            marked_range: None,
            dragging: false,
            status_message: None,
        }
    }

    /// Tabs are switched with `gt` and `gT`. A mapping that was loaded before
    /// gives way.
    pub fn register_default_mappings(&mut self)
        ensures
            final(self)@ == (Pane {
                vim: Vim {
                    keymaps: old(self)@.vim.keymaps.mapped(
                        ModeClass::Normal,
                        parsed_sequence("gt"@),
                        Rhs {
                            keys: parsed_sequence(":action demo.tab-next<CR>"@),
                            noremap: true,
                        },
                    ).mapped(
                        ModeClass::Normal,
                        parsed_sequence("gT"@),
                        Rhs {
                            keys: parsed_sequence(":action demo.tab-prev<CR>"@),
                            noremap: true,
                        },
                    ),
                    ..old(self)@.vim
                },
                ..old(self)@
            }),
    {
        self.map_normal("gt", ":action demo.tab-next<CR>");
        self.map_normal("gT", ":action demo.tab-prev<CR>");
    }

    fn map_normal(&mut self, from: &str, to: &str)
        ensures
            final(self)@ == (Pane {
                vim: Vim {
                    keymaps: old(self)@.vim.keymaps.mapped(
                        ModeClass::Normal,
                        parsed_sequence(from@),
                        Rhs { keys: parsed_sequence(to@), noremap: true },
                    ),
                    ..old(self)@.vim
                },
                ..old(self)@
            }),
    {
        let maps = self.vim.keymaps_mut();
        maps.map_str_noremap(ModeClass::Normal, from, to, true);
    }

    // ---- what is shown ---------------------------------------------------------------------------

    pub fn mode_label(&self) -> (s: String)
        ensures
            s@ == status_label(self@.vim),
    {
        match self.vim.mode {
            Mode::Normal => copy_str("NORMAL"),
            Mode::Insert => copy_str("-- INSERT --"),
            Mode::Replace => copy_str("-- REPLACE --"),
            Mode::Visual { kind } => {
                let mut s = copy_str("-- ");
                s.push_str(kind.indicator());
                s.push_str(" --");
                s
            },
            Mode::CommandLine { prompt } => {
                if prompt == ':' {
                    let mut s = copy_str(":");
                    s.push_str(self.vim.cmdline.buffer.as_str());
                    s
                } else {
                    let mut s = copy_str("SEARCH ");
                    s.push(prompt);
                    s.push_str(self.vim.cmdline.buffer.as_str());
                    proof {
                        assert(s@ =~= "SEARCH "@ + seq![prompt] + self@.vim.cmdline.buffer);
                    }
                    s
                }
            },
        }
    }

    pub fn line_col(&self) -> (r: (usize, usize))
        ensures
            (r.0 as int, r.1 as int) == self@.line_col(),
    {
        let at = self.vim.cursor_offset();
        proof {
            self.buffer.doc_wf();
            self@.doc().lemma_line_of(at as int);
        }
        let line = self.buffer.offset_to_line(at);
        (line + 1, at - VimBuffer::line_start(&self.buffer, line))
    }

    /// Normalized visual-selection span (bytes), if any.
    pub fn selection_span(&self) -> (r: Option<(Range<usize>, bool)>)
        ensures
            r is Some == self@.selection_span() is Some,
            r matches Some((range, line)) ==> self@.selection_span() == Some(
                (range.start as int, range.end as int, line),
            ),
    {
        let (anchor, cursor, kind) = match self.vim.visual_selection() {
            Some(s) => s,
            None => {
                return None;
            },
        };
        let (lo, hi) = if anchor <= cursor {
            (anchor, cursor)
        } else {
            (cursor, anchor)
        };
        if kind == VisualKind::Line {
            let start = VimBuffer::line_start(&self.buffer, self.buffer.offset_to_line(lo));
            let end = self.buffer.line_range(self.buffer.offset_to_line(hi)).end;
            Some((start..end, true))
        } else {
            proof {
                self.buffer.doc_wf();
                self@.doc().lemma_char_fits(hi as int);
            }
            let end = match self.buffer.char_at(hi) {
                Some(c) => hi + char_len(c),
                None => hi,
            };
            Some((lo..end, false))
        }
    }

    /// The gutter of a line: its number, `~` behind the text.
    pub fn gutter_text(&self, line: usize) -> (s: String)
        ensures
            s@ == gutter_cell(
                if line < self@.doc().line_count() {
                    decimal(
                        line_label(
                            line as int,
                            self@.doc().line_of(self@.vim.cursor.offset as int),
                            self@.vim.options.relativenumber,
                        ),
                    )
                } else {
                    "~"@
                },
            ),
    {
        if line >= self.buffer.line_count() {
            return gutter_text_of("~");
        }
        let current = self.buffer.offset_to_line(self.vim.cursor_offset());
        let number: usize = if self.vim.options.relativenumber && line != current {
            if line > current {
                line - current
            } else {
                current - line
            }
        } else {
            line + 1
        };
        let mut label = String::new();
        push_decimal(&mut label, number as u64);
        proof {
            assert(label@ =~= decimal(number as int));
        }
        gutter_text_of(label.as_str())
    }

    /// How many lines the pane lists; it is filled up with empty ones.
    pub fn lines_listed(&self) -> (n: usize)
        ensures
            n == max(self@.doc().line_count() as int, LEAST_LINES as int),
    {
        let n = self.buffer.line_count();
        if n >= LEAST_LINES {
            n
        } else {
            LEAST_LINES
        }
    }

    /// A line as it is shown, `~` behind the text.
    pub fn shown_line(&self, line: usize) -> (r: ShownLine)
        ensures
            r.in_text == (line < self@.doc().line_count()),
            r.text@ == if r.in_text {
                self@.doc().slice(
                    self@.doc().line_start(line as int),
                    self@.doc().line_end(line as int),
                )
            } else {
                "~"@
            },
            r.current == (r.in_text && line == self@.doc().line_of(
                self@.vim.cursor.offset as int,
            )),
    {
        if line >= self.buffer.line_count() {
            return ShownLine { text: copy_str("~"), in_text: false, current: false };
        }
        let current = line == self.buffer.offset_to_line(self.vim.cursor_offset());
        ShownLine { text: self.buffer.line_content(line), in_text: true, current }
    }

    /// What is painted over a line; nothing behind the text.
    pub fn overlays_for_line(&self, line: usize, caret_visible: bool) -> (r: Option<LineOverlays>)
        ensures
            r is Some == (line < self@.doc().line_count()),
            r matches Some(o) ==> crate::overlay::quads(o.quads@) == crate::overlay::hit_quads(
                self@.host.highlights,
                self@.host.current,
                self@.doc(),
                line as int,
            ) + crate::overlay::mark_quads(self@.marked, self@.doc(), line as int)
                + crate::overlay::selection_quads(self@.vim, self@.doc(), line as int)
                && o.cursor is Some == (caret_visible && self@.doc().line_of(
                self@.vim.cursor.offset as int,
            ) == line) && (o.cursor matches Some(c) ==> c == self@.vim.cursor.offset
                - self@.doc().line_start(line as int)) && o.cursor_block
                == !self@.vim.mode.inserting(),
    {
        if line >= self.buffer.line_count() {
            return None;
        }
        let inputs = LineOverlayInputs {
            vim: &self.vim,
            buf: &self.buffer,
            line,
            search_highlights: self.host.highlights.as_slice(),
            search_current: copy_range(&self.host.current_highlight),
            ime_marked: copy_range(&self.marked_range),
            caret_visible,
        };
        Some(compute_line_overlays(&inputs))
    }

    // ---- mouse -----------------------------------------------------------------------------------

    /// The offset at a byte index of a line, within the line.
    pub fn offset_at_index(&self, line: usize, index: usize) -> (o: usize)
        ensures
            o == ({
                let d = self@.doc();
                let i = min(line as int, d.line_count() - 1);
                min(d.line_start(i) + index, d.line_end(i))
            }),
    {
        let line = self.line_near(line);
        proof {
            self.buffer.doc_wf();
            self@.doc().lemma_line_bounds(line as int);
        }
        let start = VimBuffer::line_start(&self.buffer, line);
        let end = VimBuffer::line_end(&self.buffer, line);
        if index <= end - start {
            start + index
        } else {
            end
        }
    }

    fn line_near(&self, line: usize) -> (l: usize)
        ensures
            l == min(line as int, self@.doc().line_count() - 1),
    {
        proof {
            self.buffer.doc_wf();
        }
        let last = self.buffer.line_count() - 1;
        if line <= last {
            line
        } else {
            last
        }
    }

    /// The offset of a character column of a line, within the line.
    pub fn offset_at_column(&self, line: usize, col: usize) -> (o: usize)
        ensures
            o == ({
                let d = self@.doc();
                let i = min(line as int, d.line_count() - 1);
                min(chars_on(d, d.line_start(i), d.line_end(i), col as int), d.line_end(i))
            }),
    {
        let at = self.line_near(line);
        let ghost d = self@.doc();
        proof {
            self.buffer.doc_wf();
            d.lemma_line_bounds(at as int);
        }
        let start = VimBuffer::line_start(&self.buffer, at);
        let end = VimBuffer::line_end(&self.buffer, at);
        let mut o: usize = start;
        let mut left: usize = col;
        while o < end && left > 0
            invariant
                d == self@.doc(),
                at == min(line as int, d.line_count() - 1),
                start == d.line_start(at as int),
                end == d.line_end(at as int),
                o <= end,
                chars_on(d, o as int, end as int, left as int) == chars_on(
                    d,
                    start as int,
                    end as int,
                    col as int,
                ),
            decreases left,
        {
            match self.buffer.next_char_offset(o) {
                Some(next) => {
                    if next > end {
                        return o;
                    }
                    o = next;
                },
                None => {
                    return o;
                },
            }
            left = left - 1;
        }
        o
    }

    /// Press: the cursor goes to the offset, and a drag may start there.
    pub fn mouse_down(&mut self, offset: usize)
        ensures
            final(self)@ == (Pane {
                vim: old(self)@.vim.clicked(old(self)@.doc(), offset as int),
                dragging: true,
                host: Desk { scrolled_to: None, ..old(self)@.host },
                ..old(self)@
            }),
    {
        self.vim.set_cursor_offset(&self.buffer, offset);
        self.dragging = true;
        self.host.scrolled_to = None;
    }

    /// Drag: everything from the cursor to the offset is selected.
    pub fn mouse_drag(&mut self, offset: usize)
        ensures
            final(self)@ == if old(self)@.dragging {
                Pane {
                    vim: old(self)@.vim.dragged(
                        old(self)@.doc(),
                        old(self)@.vim.cursor.offset as int,
                        offset as int,
                    ),
                    ..old(self)@
                }
            } else {
                old(self)@
            },
    {
        if self.dragging {
            let anchor = self.vim.cursor_offset();
            self.vim.set_visual_range(&self.buffer, anchor, offset);
        }
    }

    pub fn mouse_up(&mut self)
        ensures
            final(self)@ == (Pane { dragging: false, ..old(self)@ }),
    {
        self.dragging = false;
    }

    // ---- after a key -----------------------------------------------------------------------------

    /// A line that the engine wants to see and that is not visible.
    pub fn take_scroll(&mut self, first: usize, last: usize) -> (r: Option<usize>)
        ensures
            r == match old(self)@.host.scrolled_to {
                Some(line) => if line < first || line > last {
                    Some(line)
                } else {
                    None
                },
                None => None,
            },
            final(self)@ == (Pane {
                host: Desk { scrolled_to: None, ..old(self)@.host },
                ..old(self)@
            }),
    {
        match self.host.scrolled_to.take() {
            Some(line) => if line < first || line > last {
                Some(line)
            } else {
                None
            },
            None => None,
        }
    }

    /// Text for the system clipboard, if any was written.
    pub fn take_copied(&mut self) -> (r: Option<String>)
        ensures
            text_of(r) == old(self)@.host.copied,
            final(self)@ == (Pane {
                host: Desk { copied: None, ..old(self)@.host },
                ..old(self)@
            }),
    {
        self.host.pending_clipboard_write.take()
    }

    /// `:w` and status texts go to the status bar; returns whether `:q` was
    /// given.
    pub fn take_host_effects(&mut self) -> (close: bool)
        ensures
            close == old(self)@.host.close,
            final(self)@ == (Pane {
                host: Desk { status: None, close: false, ..old(self)@.host },
                status: match old(self)@.host.status {
                    Some(s) => Some(s),
                    None => old(self)@.status,
                },
                ..old(self)@
            }),
    {
        if let Some(status) = self.host.pending_status.take() {
            self.status_message = Some(status);
        }
        let close = self.host.pending_close;
        self.host.pending_close = false;
        close
    }

    // ---- actions ---------------------------------------------------------------------------------

    /// The save action: nothing is persisted.
    pub fn save(&mut self)
        ensures
            final(self)@ == (Pane {
                status: Some(
                    written_message(
                        "untitled"@,
                        old(self)@.doc().line_count(),
                        old(self)@.doc().len(),
                    ),
                ),
                ..old(self)@
            }),
    {
        let mut s = copy_str("\"");
        s.push_str("untitled");
        s.push_str("\" ");
        push_decimal(&mut s, self.buffer.line_count() as u64);
        s.push_str("L, ");
        push_decimal(&mut s, self.buffer.len() as u64);
        s.push_str("B written (demo: not persisted)");
        self.status_message = Some(s);
    }

    /// The copy action: the selected text, for the system clipboard.
    pub fn copy(&mut self) -> (r: Option<String>)
        ensures
            ({
                let text = match old(self)@.selection_span() {
                    Some((a, b, _)) => RopeBuffer::piece(old(self)@.doc(), a, b),
                    None => Seq::empty(),
                };
                if text.len() > 0 {
                    text_of(r) == Some(text) && final(self)@ == (Pane {
                        status: Some(
                            "copied "@ + decimal(cells(text).len() as int) + " bytes"@,
                        ),
                        ..old(self)@
                    })
                } else {
                    r is None && final(self)@ == old(self)@
                }
            }),
    {
        let range = match self.selection_span() {
            Some((range, _)) => range,
            None => {
                return None;
            },
        };
        let text = self.buffer.slice(range);
        if text.as_str().is_empty() {
            return None;
        }
        let mut s = copy_str("copied ");
        push_decimal(&mut s, byte_len(text.as_str()) as u64);
        s.push_str(" bytes");
        self.status_message = Some(s);
        Some(text)
    }

    /// The paste action: text from the system clipboard.
    pub fn paste(&mut self, text: &str)
        ensures
            final(self)@.framed(old(self)@),
            final(self)@.world() == old(self)@.world().type_text::<RopeBuffer>(text@),
            final(self)@.env() == old(self)@.env(),
    {
        let ghost host = self.host;
        let ghost told = self.vim@.told;
        {
            let mut ctx = Ctx { buf: &mut self.buffer, host: &mut self.host };
            self.vim.insert_text_at_cursor(&mut ctx, text);
        }
        proof {
            told_is_heard(self.host, self.vim@.told, host, told);
        }
    }

    // ---- input methods ---------------------------------------------------------------------------

    /// The text between two UTF-16 offsets, and its byte range.
    pub fn text_for_range(&self, range: Range<usize>) -> (r: (String, Range<usize>))
        ensures
            r.1.start == self@.byte_of(range.start as int),
            r.1.end == self@.byte_of(range.end as int),
            r.0@ == RopeBuffer::piece(self@.doc(), r.1.start as int, r.1.end as int),
    {
        let start = self.buffer.utf16_to_byte(range.start);
        let end = self.buffer.utf16_to_byte(range.end);
        (self.buffer.slice(start..end), start..end)
    }

    /// The selection, or the cursor, in UTF-16 offsets.
    pub fn selected_text_range(&self) -> (r: Range<usize>)
        ensures
            match self@.selection_span() {
                Some((a, b, _)) => r.start == self@.utf16_of(a) && r.end == self@.utf16_of(b),
                None => r.start == self@.utf16_of(self@.vim.cursor.offset as int) && r.end
                    == r.start,
            },
    {
        match self.selection_span() {
            Some((range, _)) => self.buffer.byte_to_utf16(range.start)..self.buffer.byte_to_utf16(
                range.end,
            ),
            None => {
                let at = self.buffer.byte_to_utf16(self.vim.cursor_offset());
                at..at
            },
        }
    }

    /// What is being composed, in UTF-16 offsets. An empty range means that
    /// the composition is over: reporting it would keep the platform
    /// composing, and take every key from the engine.
    pub fn marked_text_range(&self) -> (r: Option<Range<usize>>)
        ensures
            match self@.marked {
                Some((a, b)) => if a < b {
                    r is Some && r->0.start == self@.utf16_of(a as int) && r->0.end
                        == self@.utf16_of(b as int)
                } else {
                    r is None
                },
                None => r is None,
            },
    {
        match &self.marked_range {
            Some(range) => if range.start < range.end {
                Some(self.buffer.byte_to_utf16(range.start)..self.buffer.byte_to_utf16(range.end))
            } else {
                None
            },
            None => None,
        }
    }

    fn commit(&mut self, start: usize, end: usize, text: &str)
        ensures
            final(self)@.framed(old(self)@),
            final(self)@.world() == old(self)@.world().commit_text::<RopeBuffer>(
                start as int,
                end as int,
                text@,
            ),
            final(self)@.env() == old(self)@.env(),
    {
        let ghost host = self.host;
        let ghost told = self.vim@.told;
        {
            let mut ctx = Ctx { buf: &mut self.buffer, host: &mut self.host };
            self.vim.replace_range(&mut ctx, start..end, text);
        }
        proof {
            told_is_heard(self.host, self.vim@.told, host, told);
        }
    }

    /// Gives up what is being composed, so that a discarded composition
    /// cannot leak into the text.
    pub fn unmark_text(&mut self)
        ensures
            final(self)@.framed(Pane { marked: None, ..old(self)@ }),
            match old(self)@.marked {
                Some((a, b)) => if a < b {
                    final(self)@.world() == old(self)@.world().commit_text::<RopeBuffer>(
                        a as int,
                        b as int,
                        ""@,
                    )
                } else {
                    final(self)@ == (Pane { marked: None, ..old(self)@ })
                },
                None => final(self)@ == old(self)@,
            },
    {
        if let Some(range) = self.marked_range.take() {
            if range.start < range.end {
                self.commit(range.start, range.end, "");
            }
        }
    }

    fn record_commit(&mut self, text: &str)
        ensures
            final(self)@ == (Pane {
                vim: old(self)@.vim.typed(text@),
                marked: None,
                ..old(self)@
            }),
            final(self)@.vim.told == old(self)@.vim.told,
    {
        self.marked_range = None;
        self.vim.record_typed_text(text);
    }

    /// The cursor's line is to be visible.
    fn follow_cursor(&mut self)
        ensures
            final(self)@ == old(self)@.following(),
    {
        let line = self.buffer.offset_to_line(self.vim.cursor_offset());
        self.host.scrolled_to = Some(line);
    }

    fn explicit_range(&self, range: Option<Range<usize>>) -> (r: Option<(usize, usize)>)
        ensures
            match opt_pair(range) {
                Some((a, b)) => if self@.byte_of(a as int) < self@.byte_of(b as int) {
                    r is Some && (r->0).0 == self@.byte_of(a as int) && (r->0).1 == self@.byte_of(
                        b as int,
                    )
                } else {
                    r is None
                },
                None => r is None,
            },
    {
        match range {
            Some(range) => {
                let start = self.buffer.utf16_to_byte(range.start);
                let end = self.buffer.utf16_to_byte(range.end);
                if start < end {
                    Some((start, end))
                } else {
                    None
                }
            },
            None => None,
        }
    }

    /// Text from the platform's input method. An explicit range that is not
    /// empty is the input method editing its own composition. Otherwise the
    /// text replaces what was being composed — the raw input there is a
    /// preview, not document text — or is typed. Committed text bypasses the
    /// key pipeline: composed characters must not run insert-mode mappings.
    pub fn replace_text_in_range(&mut self, range: Option<Range<usize>>, text: &str)
        ensures
            match old(self)@.input(opt_pair(range), text@) {
                Input::Commit(a, b) => exists|mid: Pane|
                    mid.framed(Pane { marked: None, ..old(self)@ }) && mid.world() == (Pane {
                        vim: old(self)@.vim.typed(text@),
                        ..old(self)@
                    }).world().commit_text::<RopeBuffer>(a as int, b as int, text@)
                        && final(self)@ == #[trigger] mid.following(),
                Input::Replace(a, b) => exists|mid: Pane|
                    mid.framed(old(self)@) && mid.world() == old(self)@.world().commit_text::<
                        RopeBuffer,
                    >(a, b, text@) && final(self)@ == #[trigger] mid.following(),
                Input::Ignore => final(self)@ == old(self)@.following(),
                Input::Type => exists|mid: Pane, all: Seq<Seq<Moment>>|
                    mid.framed(old(self)@) && mid.world() == (#[trigger] old(
                        self,
                    )@.world().hear_text::<RopeBuffer>(text@, all)).awaiting_none() && old(
                        self,
                    )@.world().shows_typing::<RopeBuffer, HostState>(text@, old(self).host, all)
                        && final(self)@ == #[trigger] mid.following(),
            },
    {
        let ghost p = self@;
        if let Some((a, b)) = self.explicit_range(range) {
            if self.vim.mode.is_inserting() {
                self.commit(a, b, text);
            }
            let ghost mid = self@;
            self.follow_cursor();
            proof {
                assert(mid.framed(p));
                assert(self@ == mid.following());
            }
            return ;
        }
        let composing = match &self.marked_range {
            Some(r) => if r.start < r.end {
                Some((r.start, r.end))
            } else {
                None
            },
            None => None,
        };
        if !text.is_empty() {
            if let Some((a, b)) = composing {
                self.record_commit(text);
                self.commit(a, b, text);
                let ghost mid = self@;
                self.follow_cursor();
                proof {
                    assert(mid.framed(Pane { marked: None, ..p }));
                    assert(self@ == mid.following());
                }
                return ;
            }
        }
        let ghost host = self.host;
        {
            let mut ctx = Ctx { buf: &mut self.buffer, host: &mut self.host };
            dispatch_text(&mut self.vim, &mut ctx, text);
        }
        let ghost mid = self@;
        proof {
            told_is_heard(self.host, mid.vim.told, host, p.vim.told);
        }
        self.follow_cursor();
        proof {
            assert(mid.framed(p));
            assert(self@ == mid.following());
        }
    }

    /// Text that is still being composed: shown in place and marked, without
    /// running commands or being recorded for `.`. An empty text is the input
    /// method giving up: the mark goes.
    pub fn replace_and_mark_text_in_range(&mut self, new_text: &str)
        ensures
            if !old(self)@.vim.mode.inserting() {
                final(self)@ == old(self)@
            } else {
                let p = Pane {
                    vim: Vim { recording_suppressed: true, ..old(self)@.vim },
                    ..old(self)@
                };
                let n = cells(new_text@).len() as int;
                let start = match old(self)@.marked {
                    Some((a, _)) => a,
                    None => old(self)@.vim.cursor.offset,
                };
                let end = min(start + n, usize::MAX as int) as usize;
                let w = match old(self)@.marked {
                    Some((a, b)) => p.world().commit_text::<RopeBuffer>(
                        a as int,
                        b as int,
                        new_text@,
                    ),
                    None => p.world().type_text::<RopeBuffer>(new_text@),
                };
                &&& final(self)@.framed(
                    Pane {
                        marked: if old(self)@.marked is Some && end <= start {
                            None
                        } else {
                            Some((start, end))
                        },
                        ..old(self)@
                    },
                )
                &&& final(self)@.world() == w.with_vim(
                    Vim { recording_suppressed: false, ..w.vim },
                )
            },
    {
        if !self.vim.mode.is_inserting() {
            return ;
        }
        let n = byte_len(new_text);
        self.vim.set_recording_suppressed(true);
        match self.marked_range.take() {
            Some(previous) => {
                let (start, old_end) = (previous.start, previous.end);
                self.commit(start, old_end, new_text);
                let end = plus(start, n);
                self.marked_range = if start < end {
                    Some(start..end)
                } else {
                    None
                };
                self.vim.set_recording_suppressed(false);
            },
            None => {
                let start = self.vim.cursor.offset;
                let ghost host = self.host;
                let ghost told = self.vim@.told;
                {
                    let mut ctx = Ctx { buf: &mut self.buffer, host: &mut self.host };
                    self.vim.insert_text_at_cursor(&mut ctx, new_text);
                }
                proof {
                    told_is_heard(self.host, self.vim@.told, host, told);
                }
                self.marked_range = Some(start..plus(start, n));
                self.vim.set_recording_suppressed(false);
            },
        }
    }
}

impl Pane {
    /// The UTF-16 offset of a byte offset.
    pub open spec fn utf16_of(self, byte: int) -> int {
        let d = self.doc();
        units_before(d.cells, floor_in(d.cells, min(byte, d.len())))
    }

    /// The byte offset of the character that a UTF-16 offset belongs to.
    pub open spec fn byte_of(self, utf16: int) -> int {
        byte_of_units(self.doc().cells, utf16, self.doc().len())
    }

    /// What a text that an input method hands over does.
    pub open spec fn input(self, range: Option<(usize, usize)>, text: Seq<char>) -> Input {
        let explicit = match range {
            Some((a, b)) => if self.byte_of(a as int) < self.byte_of(b as int) {
                Some((self.byte_of(a as int), self.byte_of(b as int)))
            } else {
                None
            },
            None => None,
        };
        match (explicit, self.marked) {
            (Some((a, b)), _) => if self.vim.mode.inserting() {
                Input::Replace(a, b)
            } else {
                Input::Ignore
            },
            (None, Some((a, b))) => if text.len() > 0 && a < b {
                Input::Commit(a, b)
            } else {
                Input::Type
            },
            (None, None) => Input::Type,
        }
    }

    /// The engine's cursor asks to be visible.
    pub open spec fn following(self) -> Pane {
        Pane {
            host: Desk {
                scrolled_to: Some(
                    self.doc().line_of(self.vim.cursor.offset as int) as usize,
                ),
                ..self.host
            },
            ..self
        }
    }
}

fn copy_range(r: &Option<Range<usize>>) -> (c: Option<Range<usize>>)
    ensures
        opt_pair(c) == opt_pair(*r),
{
    match r {
        Some(r) => Some(r.start..r.end),
        None => None,
    }
}

} // verus!
