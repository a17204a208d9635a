//! Edits whose details are easy to get wrong.
#![allow(dead_code)]
use gpui_vim::buffer::{VimBuffer, VimBufferMut};
use gpui_vim::doc::{Cells, Chars, Doc, Offset};
use gpui_vim::host::{Calls, ScrollAnchor, VimHost};
use gpui_vim::key::Key;
use gpui_vim::state::{Ctx, KeyResult, VimState};
use std::cell::RefCell;
use std::ops::Range;
use std::rc::Rc;
use gpui_vim::config::parse;
use gpui_vim::keymap::ModeClass;

type Shared = Rc<RefCell<String>>;

#[derive(Clone)]
struct BufferView(Shared);

impl VimBuffer for BufferView {
    fn doc(&self) -> Doc {
        unreachable!()
    }
    fn doc_wf(&self) {}
    fn piece(_: Doc, _: Offset, _: Offset) -> Chars {
        unreachable!()
    }
    fn piece_exact(_: Doc, _: Offset, _: Offset) {}
    fn len(&self) -> usize {
        self.0.borrow().len()
    }
    fn line_count(&self) -> usize {
        let text = self.0.borrow();
        if text.is_empty() {
            1
        } else if text.ends_with('\n') {
            text.split('\n').count() - 1
        } else {
            text.split('\n').count()
        }
    }
    fn char_at(&self, offset: usize) -> Option<char> {
        let text = self.0.borrow();
        if offset >= text.len() || !text.is_char_boundary(offset) {
            return None;
        }
        text[offset..].chars().next()
    }
    fn prev_char_offset(&self, offset: usize) -> Option<usize> {
        let text = self.0.borrow();
        if offset == 0 || offset > text.len() || !text.is_char_boundary(offset) {
            return None;
        }
        text[..offset].chars().next_back().map(|c| offset - c.len_utf8())
    }
    fn line_range(&self, line: usize) -> Range<usize> {
        let text = self.0.borrow();
        let parts = text.split('\n').count();
        let total = if !text.is_empty() && text.ends_with('\n') { parts - 1 } else { parts };
        if line >= total {
            return text.len()..text.len();
        }
        let mut start = 0usize;
        for (i, part) in text.split('\n').enumerate() {
            if i == line {
                let end = if i + 1 == parts { start + part.len() } else { start + part.len() + 1 };
                return start..end;
            }
            start += part.len() + 1;
        }
        start..start
    }
    fn offset_to_line(&self, offset: usize) -> usize {
        let text = self.0.borrow();
        let offset = offset.min(text.len());
        let line = text[..offset].split('\n').count() - 1;
        line.min(self.line_count() - 1)
    }
    fn slice(&self, range: Range<usize>) -> String {
        self.0.borrow()[range].to_owned()
    }
}

impl VimBufferMut for BufferView {
    fn blanks_join_their_line(_: Doc, _: Offset, _: Chars) {}
    fn edition(&self) -> u64 {
        0
    }
    fn next_edition(n: u64) -> u64 {
        n
    }
    fn editable(&self) -> bool {
        true
    }
    fn doc_of(_: Cells) -> Doc {
        unreachable!()
    }
    fn edited(_: Doc, _: Offset, _: Offset, _: Chars) -> Doc {
        unreachable!()
    }
    fn takes(_: Chars) -> bool {
        true
    }
    fn edited_exact(_: Doc, _: Offset, _: Offset, _: Chars) {}
    fn insert_text(&mut self, offset: usize, text: &str) {
        self.0.borrow_mut().insert_str(offset, text);
    }
    fn delete_range(&mut self, range: Range<usize>) {
        self.0.borrow_mut().replace_range(range, "");
    }
}

struct HostView {
    text: Shared,
    viewport: (usize, usize),
    clipboard: Option<String>,
    highlights: Vec<Range<usize>>,
    current_highlight: Option<Range<usize>>,
    scrolled_to: Vec<usize>,
    group_count: usize,
    saved: usize,
    close_requested: bool,
    close_forced: bool,
    statuses: Vec<String>,
    actions: Vec<String>,
    bells: usize,
    undo_stack: Vec<(String, usize)>,
    redo_stack: Vec<(String, usize)>,
    open_group: Option<u64>,
}

impl VimHost for HostView {
    fn told(&self) -> Calls {
        unreachable!()
    }
    fn serves(&self, _: &Self, _: Calls) -> bool {
        true
    }
    fn serves_nothing(&self) {}
    fn seen_lines(&self) -> (usize, usize) {
        self.viewport()
    }
    fn clip(&self) -> Option<Chars> {
        unreachable!()
    }
    fn viewport(&self) -> (usize, usize) {
        self.viewport
    }
    fn scroll_to_line(&mut self, line: usize) {
        self.scrolled_to.push(line);
    }
    fn clipboard_write(&mut self, text: &str) {
        self.clipboard = Some(text.to_owned());
    }
    fn clipboard_read(&self) -> Option<String> {
        self.clipboard.clone()
    }
    fn set_search_highlights(&mut self, matches: &[Range<usize>], current: Option<Range<usize>>) {
        self.highlights = matches.to_vec();
        self.current_highlight = current;
    }
    fn begin_undo_group<B: VimBuffer>(&mut self, _: &B, id: u64, cursor: usize) {
        if self.open_group != Some(id) {
            self.undo_stack.push((self.text.borrow().clone(), cursor));
            self.open_group = Some(id);
            self.group_count += 1;
        }
    }
    fn undo<B: VimBufferMut>(&mut self, _: &mut B) -> Option<usize> {
        let (text, cursor) = self.undo_stack.pop()?;
        self.redo_stack.push((self.text.borrow().clone(), cursor));
        *self.text.borrow_mut() = text;
        self.open_group = None;
        Some(cursor)
    }
    fn redo<B: VimBufferMut>(&mut self, _: &mut B) -> Option<usize> {
        let (text, cursor) = self.redo_stack.pop()?;
        self.undo_stack.push((self.text.borrow().clone(), cursor));
        *self.text.borrow_mut() = text;
        self.open_group = None;
        Some(cursor)
    }
    fn bell(&mut self) {
        self.bells += 1;
    }
    fn save<B: VimBuffer>(&mut self, _: &B) {
        self.saved += 1;
    }
    fn request_close_hinted(&mut self, force: bool) {
        self.close_requested = true;
        self.close_forced = force;
    }
    fn status_message(&mut self, message: &str) {
        self.statuses.push(message.to_owned());
    }
    fn buffer_name(&self) -> &str {
        "test-buffer"
    }
    fn dispatch_host_action_hinted(&mut self, id: &str, _strict: bool) {
        self.actions.push(id.to_owned());
    }
    fn scroll_to_line_anchored(&mut self, line: usize, _: ScrollAnchor) {
        self.scroll_to_line(line);
    }
    fn changed(&mut self) {}
}

/// One engine session over one buffer.
struct Fixture {
    buf: BufferView,
    host: HostView,
    vim: VimState,
}

impl Fixture {
    fn new(initial: &str) -> Self {
        let shared: Shared = Rc::new(RefCell::new(initial.to_owned()));
        Fixture {
            buf: BufferView(shared.clone()),
            host: HostView {
                text: shared,
                viewport: (0, 9),
                clipboard: None,
                highlights: Vec::new(),
                current_highlight: None,
                scrolled_to: Vec::new(),
                group_count: 0,
                saved: 0,
                close_requested: false,
                close_forced: false,
                statuses: Vec::new(),
                actions: Vec::new(),
                bells: 0,
                undo_stack: Vec::new(),
                redo_stack: Vec::new(),
                open_group: None,
            },
            vim: VimState::new(),
        }
    }

    fn at(initial: &str, line: usize, col: usize) -> Self {
        let mut f = Fixture::new(initial);
        let line_start = f.buf.line_start(line);
        f.vim.cursor.offset = line_start + col;
        f
    }

    fn feed<I: AsRef<str>>(&mut self, keys: impl IntoIterator<Item = I>) -> &mut Self {
        for k in keys {
            let key = Key::parse(k.as_ref());
            let mut ctx = Ctx { buf: &mut self.buf, host: &mut self.host };
            let _ = self.vim.handle_key(&mut ctx, key);
        }
        self
    }

    fn feed_raw(&mut self, key: Key) -> KeyResult {
        let mut ctx = Ctx { buf: &mut self.buf, host: &mut self.host };
        self.vim.handle_key(&mut ctx, key)
    }

    /// The text-input path: what the host does with typed text.
    fn type_text(&mut self, s: &str) {
        let mut ctx = Ctx { buf: &mut self.buf, host: &mut self.host };
        self.vim.insert_text_at_cursor(&mut ctx, s);
    }

    fn text(&self) -> String {
        self.buf.0.borrow().clone()
    }

    fn cursor(&self) -> usize {
        self.vim.cursor.offset
    }

    fn line(&self) -> usize {
        self.buf.offset_to_line(self.vim.cursor.offset)
    }
}

/// Run `keys` from `(line, col)` and return the fixture.
fn edit(initial: &str, line: usize, col: usize, keys: &[&str]) -> Fixture {
    let mut f = Fixture::at(initial, line, col);
    f.feed(keys);
    f
}

// ---- gq format operator ------------------------------------------------------

#[test]
fn gq_on_later_line_does_not_delete_text() {
    let mut f = Fixture::at("keep\nsecond line here is long enough to wrap\n", 1, 0);
    f.vim.options_mut().textwidth = 12;
    f.feed(["g", "q", "q"]);
    assert_eq!(
        f.text(),
        "keep\nsecond line\nhere is long\nenough to\nwrap\n"
    );
    // vim: cursor on the first non-blank of the LAST formatted line
    assert_eq!(f.line(), 4);
}

#[test]
fn gq_cursor_lands_on_last_formatted_line() {
    let mut f = Fixture::at("the quick brown fox jumps over the lazy dog\nnext\n", 0, 0);
    f.vim.options_mut().textwidth = 20;
    f.feed(["g", "q", "g", "q"]);
    assert_eq!(
        f.text(),
        "the quick brown fox\njumps over the lazy\ndog\nnext\n"
    );
    assert_eq!(f.cursor(), 40); // the "dog" line
}

// ---- C-a / C-x number increment ----------------------------------------------

#[test]
fn c_a_on_last_digit_increments_whole_number() {
    // the number begins where its digits do, not at the cursor
    let f = edit("x129y", 0, 3, &["<C-a>"]);
    assert_eq!(f.text(), "x130y");
    assert_eq!(f.cursor(), 3); // last digit of 130 ("x130": '0' at byte 3)

    // mid-number behaves the same
    let f = edit("x129y", 0, 2, &["<C-a>"]);
    assert_eq!(f.text(), "x130y");
}

#[test]
fn c_a_ignores_numbers_before_cursor() {
    // vim: nothing "at or after the cursor" -> E18, buffer unchanged.
    let f = edit("123 abc", 0, 5, &["<C-a>"]);
    assert_eq!(f.text(), "123 abc");
}

#[test]
fn c_a_at_line_end_uses_trailing_number() {
    // the engine parks the cursor at the line-end byte (visually on the
    // last char), which must still count as "on" the trailing number
    let f = edit("n 42\n", 0, 4, &["<C-a>"]);
    assert_eq!(f.text(), "n 43\n");
}

// ---- J join bookkeeping --------------------------------------------------------

#[test]
fn join_updates_marks_through_edit_replace() {
    // Mark `a` sits on `t` of `  two` (offset 6); after `J` the newline +
    // indent collapse and the `t` lands at offset 4.
    let mut f = Fixture::at("one\n  two\n", 0, 0);
    f.feed(["j", "0", "w", "m", "a"]); // mark on the 't' of "two"
    f.feed(["g", "g", "J"]);
    assert_eq!(f.text(), "one two\n");
    assert_eq!(f.vim.marks.get('a'), Some(4));
}

// ---- linewise put cursor --------------------------------------------------------

#[test]
fn linewise_put_cursor_on_first_pasted_line() {
    // the cursor lands on the first line of the put text, first non-blank
    let mut f = Fixture::at("alpha\nbeta\ngamma\n", 0, 0);
    f.feed(["y", "y", "j", "p"]);
    assert_eq!(f.text(), "alpha\nbeta\nalpha\ngamma\n");
    assert_eq!(f.cursor(), 11); // start of the pasted "alpha"

    // P pastes above: cursor on the pasted line as well
    let mut f = Fixture::at("alpha\nbeta\n", 1, 0);
    f.feed(["y", "y", "k", "P"]);
    assert_eq!(f.text(), "beta\nalpha\nbeta\n");
    assert_eq!(f.cursor(), 0); // the pasted "beta" is now line 0
}

// ---- ? + empty Enter repeats backward --------------------------------------------

#[test]
fn question_enter_repeats_search_backward() {
    // vim: an empty pattern re-runs the last search in the direction of the
    // current prompt
    let mut f = Fixture::at("b b b", 0, 0);
    f.feed(["/", "b", "<CR>"]); // forward to the second b (offset 2)
    assert_eq!(f.cursor(), 2);
    f.feed(["?", "<CR>"]);
    assert_eq!(f.cursor(), 0, "? + Enter must search backward");
    assert!(!f.vim.search.forward);
}

// ---- multi-char case mappings (ß ↔ SS) -------------------------------------------

#[test]
fn toggle_char_expands_and_shrinks_multi_char_case_mapping() {
    // `~` on ß produces SS in vim; the mapping must expand in place.
    let f = edit("aßc", 0, 1, &["~"]);
    assert_eq!(f.text(), "aSSc");

    // the byte length can also SHRINK (ẞ -> ß): the replaced range must be
    // the consumed span
    let f = edit("ẞx", 0, 0, &["~"]);
    assert_eq!(f.text(), "ßx");

    // gU over ß expands too
    let f = edit("aß", 0, 0, &["g", "U", "U"]);
    assert_eq!(f.text(), "ASS");
}

// ---- dw over trailing blanks keeps the newline ------------------------------------

#[test]
fn dw_on_trailing_blanks_keeps_newline() {
    // vim's exclusive-motion column-1 rule moves the end to the last char
    // of the previous line; the newline itself survives
    let f = edit("foo   \nbar", 0, 3, &["d", "w"]);
    assert_eq!(f.text(), "foo\nbar");
}

// ---- is_idle (the VimEdit local-undo gate) -----------------------------------------

#[test]
fn is_idle_reflects_pending_command_input() {
    let mut f = Fixture::new("foo\n");
    assert!(f.vim.is_idle());

    f.feed(["g"]);
    assert!(!f.vim.is_idle(), "`g` is a live two-key prefix");

    f.feed(["u"]); // completes the `gu` operator
    assert!(!f.vim.is_idle(), "operator waits for its motion");

    f.feed(["w"]); // guw executes
    assert!(f.vim.is_idle());

    f.feed(["\""]); // register prefix
    assert!(!f.vim.is_idle());
    f.feed(["a", "d", "d"]); // "add executes
    assert!(f.vim.is_idle());

    f.feed(["g"]);
    f.feed(["<Esc>"]);
    assert!(f.vim.is_idle(), "Esc clears pending state");
}

// ---- space key / <Space> leader normalization ---------------------------------------

#[test]
fn space_leader_from_vimrc_space_notation() {
    let text = "let mapleader = \"<Space>\"\nmap <Leader>q :action T.Q<CR>\n";
    let mut f = Fixture::at("foo\n", 0, 0);
    let config = parse(text);
    f.vim.apply_config(&config);
    f.feed_raw(Key::named("space"));
    f.feed(["q"]);
    assert_eq!(f.host.actions, vec!["T.Q".to_owned()]);
}

#[test]
fn space_key_matches_char_space_mappings() {
    // Named("space") keystrokes (the gpui path) canonicalize to Char(' '),
    // so a mapping declared either spelling fires from either path. The RHS
    // avoids insert typing (headless fixtures place text via the IME path).
    let mut f = Fixture::at("foo\n", 0, 0);
    f.vim
        .keymaps_mut()
        .map_str_noremap(ModeClass::Normal, "<Space>x", "x", true);
    f.feed_raw(Key::named("space"));
    f.feed(["x"]);
    assert_eq!(f.text(), "oo\n");
}
