//! Motions, operators and modes, key by key.
#![allow(dead_code)]
use gpui_vim::buffer::{VimBuffer, VimBufferMut};
use gpui_vim::doc::{Cells, Chars, Doc, Offset};
use gpui_vim::host::{Calls, ScrollAnchor, VimHost};
use gpui_vim::key::Key;
use gpui_vim::state::{Ctx, KeyResult, VimState};
use std::cell::RefCell;
use std::ops::Range;
use std::rc::Rc;
use gpui_vim::keymap::ModeClass;
use gpui_vim::mode::{Mode, VisualKind};

type Shared = Rc<RefCell<String>>;

#[derive(Clone)]
struct BufferView(Shared);

impl VimBuffer for BufferView {
    fn doc(&self) -> Doc {
        unreachable!()
    }
    fn doc_wf(&self) {}
    fn piece(_: Doc, _: Offset, _: Offset) -> Chars {
        unreachable!()
    }
    fn piece_exact(_: Doc, _: Offset, _: Offset) {}
    fn len(&self) -> usize {
        self.0.borrow().len()
    }
    fn line_count(&self) -> usize {
        let text = self.0.borrow();
        if text.is_empty() {
            1
        } else if text.ends_with('\n') {
            text.split('\n').count() - 1
        } else {
            text.split('\n').count()
        }
    }
    fn char_at(&self, offset: usize) -> Option<char> {
        let text = self.0.borrow();
        if offset >= text.len() || !text.is_char_boundary(offset) {
            return None;
        }
        text[offset..].chars().next()
    }
    fn prev_char_offset(&self, offset: usize) -> Option<usize> {
        let text = self.0.borrow();
        if offset == 0 || offset > text.len() || !text.is_char_boundary(offset) {
            return None;
        }
        text[..offset].chars().next_back().map(|c| offset - c.len_utf8())
    }
    fn line_range(&self, line: usize) -> Range<usize> {
        let text = self.0.borrow();
        let parts = text.split('\n').count();
        let total = if !text.is_empty() && text.ends_with('\n') { parts - 1 } else { parts };
        if line >= total {
            return text.len()..text.len();
        }
        let mut start = 0usize;
        for (i, part) in text.split('\n').enumerate() {
            if i == line {
                let end = if i + 1 == parts { start + part.len() } else { start + part.len() + 1 };
                return start..end;
            }
            start += part.len() + 1;
        }
        start..start
    }
    fn offset_to_line(&self, offset: usize) -> usize {
        let text = self.0.borrow();
        let offset = offset.min(text.len());
        let line = text[..offset].split('\n').count() - 1;
        line.min(self.line_count() - 1)
    }
    fn slice(&self, range: Range<usize>) -> String {
        self.0.borrow()[range].to_owned()
    }
}

impl VimBufferMut for BufferView {
    fn blanks_join_their_line(_: Doc, _: Offset, _: Chars) {}
    fn edition(&self) -> u64 {
        0
    }
    fn next_edition(n: u64) -> u64 {
        n
    }
    fn editable(&self) -> bool {
        true
    }
    fn doc_of(_: Cells) -> Doc {
        unreachable!()
    }
    fn edited(_: Doc, _: Offset, _: Offset, _: Chars) -> Doc {
        unreachable!()
    }
    fn takes(_: Chars) -> bool {
        true
    }
    fn edited_exact(_: Doc, _: Offset, _: Offset, _: Chars) {}
    fn insert_text(&mut self, offset: usize, text: &str) {
        self.0.borrow_mut().insert_str(offset, text);
    }
    fn delete_range(&mut self, range: Range<usize>) {
        self.0.borrow_mut().replace_range(range, "");
    }
}

struct HostView {
    text: Shared,
    viewport: (usize, usize),
    clipboard: Option<String>,
    highlights: Vec<Range<usize>>,
    current_highlight: Option<Range<usize>>,
    scrolled_to: Vec<usize>,
    group_count: usize,
    saved: usize,
    close_requested: bool,
    close_forced: bool,
    statuses: Vec<String>,
    actions: Vec<String>,
    bells: usize,
    undo_stack: Vec<(String, usize)>,
    redo_stack: Vec<(String, usize)>,
    open_group: Option<u64>,
}

impl VimHost for HostView {
    fn told(&self) -> Calls {
        unreachable!()
    }
    fn serves(&self, _: &Self, _: Calls) -> bool {
        true
    }
    fn serves_nothing(&self) {}
    fn seen_lines(&self) -> (usize, usize) {
        self.viewport()
    }
    fn clip(&self) -> Option<Chars> {
        unreachable!()
    }
    fn viewport(&self) -> (usize, usize) {
        self.viewport
    }
    fn scroll_to_line(&mut self, line: usize) {
        self.scrolled_to.push(line);
    }
    fn clipboard_write(&mut self, text: &str) {
        self.clipboard = Some(text.to_owned());
    }
    fn clipboard_read(&self) -> Option<String> {
        self.clipboard.clone()
    }
    fn set_search_highlights(&mut self, matches: &[Range<usize>], current: Option<Range<usize>>) {
        self.highlights = matches.to_vec();
        self.current_highlight = current;
    }
    fn begin_undo_group<B: VimBuffer>(&mut self, _: &B, id: u64, cursor: usize) {
        if self.open_group != Some(id) {
            self.undo_stack.push((self.text.borrow().clone(), cursor));
            self.open_group = Some(id);
            self.group_count += 1;
        }
    }
    fn undo<B: VimBufferMut>(&mut self, _: &mut B) -> Option<usize> {
        let (text, cursor) = self.undo_stack.pop()?;
        self.redo_stack.push((self.text.borrow().clone(), cursor));
        *self.text.borrow_mut() = text;
        self.open_group = None;
        Some(cursor)
    }
    fn redo<B: VimBufferMut>(&mut self, _: &mut B) -> Option<usize> {
        let (text, cursor) = self.redo_stack.pop()?;
        self.undo_stack.push((self.text.borrow().clone(), cursor));
        *self.text.borrow_mut() = text;
        self.open_group = None;
        Some(cursor)
    }
    fn bell(&mut self) {
        self.bells += 1;
    }
    fn save<B: VimBuffer>(&mut self, _: &B) {
        self.saved += 1;
    }
    fn request_close_hinted(&mut self, force: bool) {
        self.close_requested = true;
        self.close_forced = force;
    }
    fn status_message(&mut self, message: &str) {
        self.statuses.push(message.to_owned());
    }
    fn buffer_name(&self) -> &str {
        "test-buffer"
    }
    fn dispatch_host_action_hinted(&mut self, id: &str, _strict: bool) {
        self.actions.push(id.to_owned());
    }
    fn scroll_to_line_anchored(&mut self, line: usize, _: ScrollAnchor) {
        self.scroll_to_line(line);
    }
    fn changed(&mut self) {}
}

/// One engine session over one buffer.
struct Fixture {
    buf: BufferView,
    host: HostView,
    vim: VimState,
}

impl Fixture {
    fn new(initial: &str) -> Self {
        let shared: Shared = Rc::new(RefCell::new(initial.to_owned()));
        Fixture {
            buf: BufferView(shared.clone()),
            host: HostView {
                text: shared,
                viewport: (0, 9),
                clipboard: None,
                highlights: Vec::new(),
                current_highlight: None,
                scrolled_to: Vec::new(),
                group_count: 0,
                saved: 0,
                close_requested: false,
                close_forced: false,
                statuses: Vec::new(),
                actions: Vec::new(),
                bells: 0,
                undo_stack: Vec::new(),
                redo_stack: Vec::new(),
                open_group: None,
            },
            vim: VimState::new(),
        }
    }

    fn at(initial: &str, line: usize, col: usize) -> Self {
        let mut f = Fixture::new(initial);
        let line_start = f.buf.line_start(line);
        f.vim.cursor.offset = line_start + col;
        f
    }

    fn feed<I: AsRef<str>>(&mut self, keys: impl IntoIterator<Item = I>) -> &mut Self {
        for k in keys {
            let key = Key::parse(k.as_ref());
            let mut ctx = Ctx { buf: &mut self.buf, host: &mut self.host };
            let _ = self.vim.handle_key(&mut ctx, key);
        }
        self
    }

    fn feed_raw(&mut self, key: Key) -> KeyResult {
        let mut ctx = Ctx { buf: &mut self.buf, host: &mut self.host };
        self.vim.handle_key(&mut ctx, key)
    }

    /// The text-input path: what the host does with typed text.
    fn type_text(&mut self, s: &str) {
        let mut ctx = Ctx { buf: &mut self.buf, host: &mut self.host };
        self.vim.insert_text_at_cursor(&mut ctx, s);
    }

    fn text(&self) -> String {
        self.buf.0.borrow().clone()
    }

    fn cursor(&self) -> usize {
        self.vim.cursor.offset
    }

    fn line(&self) -> usize {
        self.buf.offset_to_line(self.vim.cursor.offset)
    }
}

/// Run `keys` from `(line, col)` and return the fixture.
fn edit(initial: &str, line: usize, col: usize, keys: &[&str]) -> Fixture {
    let mut f = Fixture::at(initial, line, col);
    f.feed(keys);
    f
}

const THREE_LINES: &str = "one two three\nhello world\nrust vim engine\n";
const WORDS: &str = "foo bar baz\n";
const MULTI: &str = "alpha\nbeta\ngamma\ndelta\n";

// ---- basic motions ---------------------------------------------------------

#[test]
fn motions_hjkl() {
    let f = edit(THREE_LINES, 0, 0, &["l", "l"]);
    assert_eq!(f.cursor(), 2);

    let f = edit(THREE_LINES, 0, 0, &["j"]);
    assert_eq!(f.line(), 1);
    assert_eq!(f.cursor(), 14); // column preserved

    let f = edit(THREE_LINES, 1, 4, &["k"]);
    assert_eq!(f.line(), 0);
    assert_eq!(f.cursor(), 4);

    let f = edit(WORDS, 0, 0, &["h"]);
    assert_eq!(f.cursor(), 0); // stuck at line start

    let f = edit(WORDS, 0, 10, &["l"]);
    assert_eq!(f.cursor(), 10); // stuck on 'z', never on the newline
}

#[test]
fn motions_word_family() {
    let f = edit(WORDS, 0, 0, &["w"]);
    assert_eq!(f.cursor(), 4); // 'bar'

    let f = edit(WORDS, 0, 0, &["e"]);
    assert_eq!(f.cursor(), 2); // end of foo

    let f = edit(WORDS, 0, 0, &["b"]);
    assert_eq!(f.cursor(), 0); // stuck

    let f = edit("foo   bar", 0, 0, &["w"]);
    assert_eq!(f.cursor(), 6); // skips spaces

    // w stops on a blank line
    let f = edit("ab\n\ncd\n", 0, 0, &["w"]);
    assert_eq!(f.line(), 1);
}

#[test]
fn motions_line() {
    let f = edit(THREE_LINES, 0, 4, &["0"]);
    assert_eq!(f.cursor(), 0);

    let f = edit("  indented", 0, 5, &["^"]);
    assert_eq!(f.cursor(), 2);

    let f = edit("  indented", 0, 0, &["$"]);
    assert_eq!(f.cursor(), 9);

    let f = edit(MULTI, 0, 0, &["G"]);
    assert_eq!(f.line(), 3);
    assert_eq!(f.cursor(), 17); // first non-blank of last line... 'delta' start

    let f = edit(MULTI, 0, 0, &["g", "g"]);
    assert_eq!(f.line(), 0);

    let f = edit(MULTI, 0, 0, &["2", "G"]);
    assert_eq!(f.line(), 1);
}

#[test]
fn motions_find_char() {
    let f = edit("hello world", 0, 0, &["f", "o"]);
    assert_eq!(f.cursor(), 4);

    let f = edit("hello world", 0, 0, &["t", "o"]);
    assert_eq!(f.cursor(), 3);

    // ; repeats, , reverses
    let f = edit("a b a b a b", 0, 0, &["f", "b", ";", ";"]);
    assert_eq!(f.cursor(), 10);
    let f = edit("a b a b a b", 0, 0, &["f", "b", ";", ","]);
    assert_eq!(f.cursor(), 2);

    // find wraps within the line only
    let f = edit("abc\ndef", 0, 0, &["f", "f"]);
    assert_eq!(f.cursor(), 0);
}

#[test]
fn motions_percent() {
    // from `a` the first bracket ahead is `)`; % jumps to its match `(`
    let f = edit("fn main(a, b) {}", 0, 8, &["%"]);
    assert_eq!(f.cursor(), 7);

    let f = edit("fn main(a, b) {}", 0, 0, &["f", "(", "%"]);
    assert_eq!(f.cursor(), 12);
}

// ---- operators -------------------------------------------------------------

#[test]
fn delete_dw_and_special_cases() {
    // plain dw
    let f = edit(WORDS, 0, 0, &["d", "w"]);
    assert_eq!(f.text(), "bar baz\n");
    assert_eq!(f.cursor(), 0);

    // dw never joins lines
    let f = edit("foo\nbar", 0, 0, &["d", "w"]);
    assert_eq!(f.text(), "\nbar");

    // trailing whitespace is eaten
    let f = edit("foo   \nbar", 0, 0, &["d", "w"]);
    assert_eq!(f.text(), "\nbar");

    // on whitespace before a word: linewise-style (deletes the blanks+nl)
    let f = edit("  \nbar", 0, 0, &["d", "w"]);
    assert_eq!(f.text(), "bar");
}

#[test]
fn delete_counts_and_motions() {
    let f = edit(WORDS, 0, 0, &["d", "2", "w"]);
    assert_eq!(f.text(), "baz\n");

    let f = edit("hello world", 0, 5, &["d", "$"]);
    assert_eq!(f.text(), "hello");

    let f = edit("hello world", 0, 0, &["d", "f", "o"]);
    assert_eq!(f.text(), " world");

    let f = edit("hello world", 0, 0, &["d", "t", "o"]);
    assert_eq!(f.text(), "lo world");
}

#[test]
fn delete_dd_linewise() {
    let f = edit(MULTI, 1, 2, &["d", "d"]);
    assert_eq!(f.text(), "alpha\ngamma\ndelta\n");
    assert_eq!(f.line(), 1);
    assert_eq!(f.cursor(), 6);

    let f = edit(MULTI, 0, 1, &["2", "d", "d"]);
    assert_eq!(f.text(), "gamma\ndelta\n");

    // 2dd via doubling with count after
    let f = edit(MULTI, 0, 0, &["d", "2", "d"]);
    assert_eq!(f.text(), "gamma\ndelta\n");
}

#[test]
fn change_cw_ciw_cc() {
    // cw acts like ce: trailing space kept
    let mut f = edit("foo bar", 0, 0, &["c", "w"]);
    assert_eq!(f.vim.mode(), Mode::Insert);
    f.type_text("XX");
    f.feed(["<Esc>"]);
    assert_eq!(f.text(), "XX bar");

    // ciw: inner word
    let mut f = edit("say hello now", 0, 5, &["c", "i", "w"]);
    f.type_text("bye");
    f.feed(["<Esc>"]);
    assert_eq!(f.text(), "say bye now");

    // cc clears the line, keeps autoindent
    let mut f = edit("    indented\nnext", 0, 6, &["c", "c"]);
    f.type_text("new");
    f.feed(["<Esc>"]);
    assert_eq!(f.text(), "    new\nnext");

    // c$ = change to line end
    let mut f = edit("keep this tail", 0, 5, &["c", "$"]);
    f.type_text("end");
    f.feed(["<Esc>"]);
    assert_eq!(f.text(), "keep end");
}

#[test]
fn yank_and_put() {
    // yy + j + p: linewise paste below the line under the cursor
    let f = edit(MULTI, 0, 0, &["y", "y", "j", "p"]);
    assert_eq!(f.text(), "alpha\nbeta\nalpha\ngamma\ndelta\n");

    // P pastes above
    let f = edit(MULTI, 1, 0, &["y", "y", "P"]);
    assert_eq!(f.text(), "alpha\nbeta\nbeta\ngamma\ndelta\n");

    // yiw + p: charwise
    let f = edit("foo bar", 0, 0, &["y", "i", "w", "w", "p"]);
    assert_eq!(f.text(), "foo bfooar");

    // xp swap
    let f = edit("ab", 0, 0, &["x", "p"]);
    assert_eq!(f.text(), "ba");

    // p then 2p repeats
    let f = edit("x\n", 0, 0, &["y", "i", "w", "p", "2", "p"]);
    assert_eq!(f.text(), "xxxx\n");
}

#[test]
fn registers_explicit() {
    // "ayiw then "ap
    let mut f = edit("one two", 0, 0, &["\"", "a", "y", "i", "w"]);
    f.feed(["w", "\"", "a", "p"]);
    assert_eq!(f.text(), "one tonewo");

    // blackhole register discards
    let f = edit("hello", 0, 0, &["\"", "_", "d", "i", "w"]);
    assert_eq!(f.text(), "");
}

#[test]
fn indent_operators() {
    let f = edit("a\nb\nc\n", 0, 0, &["2", ">", ">"]);
    assert_eq!(f.text(), "    a\n    b\nc\n");

    let f = edit("    a\nb\n", 0, 0, &["<", "<"]);
    assert_eq!(f.text(), "a\nb\n");

    let f = edit(MULTI, 0, 0, &[">", "j"]);
    assert_eq!(f.text(), "    alpha\n    beta\ngamma\ndelta\n");
}

#[test]
fn case_operators() {
    let f = edit("hello world", 0, 0, &["g", "U", "i", "w"]);
    assert_eq!(f.text(), "HELLO world");

    let f = edit("hello world", 0, 0, &["g", "u", "i", "w"]);
    assert_eq!(f.text(), "hello world");
    let f = edit("HELLO world", 0, 0, &["g", "~", "i", "w"]);
    assert_eq!(f.text(), "hello world");

    // guu / gUU line variants
    let f = edit("MiXeD", 0, 0, &["g", "u", "u"]);
    assert_eq!(f.text(), "mixed");
    let f = edit("mixed", 0, 0, &["g", "U", "U"]);
    assert_eq!(f.text(), "MIXED");
}

#[test]
fn misc_edit_commands() {
    // x
    let f = edit("abc", 0, 1, &["x"]);
    assert_eq!(f.text(), "ac");
    // X
    let f = edit("abc", 0, 1, &["X"]);
    assert_eq!(f.text(), "bc");
    // r
    let f = edit("abc", 0, 1, &["r", "Z"]);
    assert_eq!(f.text(), "aZc");
    // 3r
    let f = edit("abcdef", 0, 0, &["3", "r", "-"]);
    assert_eq!(f.text(), "---def");
    // ~
    let f = edit("aBc", 0, 0, &["~"]);
    assert_eq!(f.text(), "ABc");
    // J joins with a space
    let f = edit("foo\nbar\nbaz", 0, 0, &["J"]);
    assert_eq!(f.text(), "foo bar\nbaz");
    // gJ literal join
    let f = edit("foo\nbar", 0, 0, &["g", "J"]);
    assert_eq!(f.text(), "foobar");
    // D / C / Y
    let f = edit("hello world", 0, 5, &["D"]);
    assert_eq!(f.text(), "hello");
    let mut f = edit("keep tail", 0, 4, &["Y"]);
    f.feed(["p"]);
    assert_eq!(f.text(), "keep tail\nkeep tail");
}

#[test]
fn undo_redo() {
    let mut f = Fixture::at(MULTI, 0, 0);
    f.feed(["d", "d"]);
    assert_eq!(f.text(), "beta\ngamma\ndelta\n");
    f.feed(["u"]);
    assert_eq!(f.text(), MULTI);
    // cursor restored to the pre-edit position
    assert_eq!(f.cursor(), 0);
    f.feed(["<C-r>"]);
    assert_eq!(f.text(), "beta\ngamma\ndelta\n");

    // insert session = ONE undo group
    let mut f = Fixture::at("abc", 0, 0);
    f.feed(["i"]);
    f.type_text("123");
    f.feed(["<Esc>"]);
    assert_eq!(f.text(), "123abc");
    f.feed(["u"]);
    assert_eq!(f.text(), "abc");
}

#[test]
fn visual_mode_ops() {
    // v e d
    let f = edit("foo bar", 0, 0, &["v", "e", "d"]);
    assert_eq!(f.text(), " bar");
    assert_eq!(f.vim.mode(), Mode::Normal);

    // V j d
    let f = edit(MULTI, 0, 0, &["V", "j", "d"]);
    assert_eq!(f.text(), "gamma\ndelta\n");

    // viw y + p: paste goes after the char under the cursor
    let mut f = edit("copy me", 0, 0, &["v", "i", "w", "y"]);
    f.feed(["w", "p"]);
    assert_eq!(f.text(), "copy mcopye");

    // visual ~
    let f = edit("hello", 0, 0, &["v", "e", "~"]);
    assert_eq!(f.text(), "HELLO");

    // visual indent
    let f = edit("a\nb\n", 0, 0, &["V", "j", ">"]);
    assert_eq!(f.text(), "    a\n    b\n");

    // o swaps ends
    let f = edit("abcdef", 0, 0, &["v", "3", "l", "o"]);
    assert_eq!(f.cursor(), 0);

    // gv restores selection
    let mut f = Fixture::at("abcdef", 0, 0);
    f.feed(["v", "e", "y", "g", "v"]);
    assert_eq!(f.vim.mode(), Mode::Visual { kind: VisualKind::Char });
}

#[test]
fn insert_commands() {
    // i / a / I / A
    let mut f = edit("abc", 0, 1, &["a"]);
    f.type_text("X");
    f.feed(["<Esc>"]);
    assert_eq!(f.text(), "abXc");
    let mut f = edit("abc", 0, 1, &["A"]);
    f.type_text("X");
    f.feed(["<Esc>"]);
    assert_eq!(f.text(), "abcX");
    let f = edit("   abc", 0, 4, &["I"]);
    assert_eq!(f.cursor(), 3);
    let f = edit("abc", 0, 0, &["A"]);
    assert_eq!(f.cursor(), 3);

    // o / O with autoindent
    let f = edit("  foo\nbar", 0, 2, &["o"]);
    assert_eq!(f.text(), "  foo\n  \nbar");
    assert_eq!(f.cursor(), 8);
    let f = edit("  foo", 0, 2, &["O"]);
    assert_eq!(f.text(), "  \n  foo");

    // s / S / C
    let mut f = edit("abc", 0, 0, &["s"]);
    f.type_text("X");
    f.feed(["<Esc>"]);
    assert_eq!(f.text(), "Xbc");
    let mut f = edit("  abc", 0, 2, &["S"]);
    f.type_text("z");
    f.feed(["<Esc>"]);
    assert_eq!(f.text(), "  z");
    let mut f = edit("abc def", 0, 3, &["C"]);
    f.type_text("!");
    f.feed(["<Esc>"]);
    assert_eq!(f.text(), "abc!");

    // Esc exits back one char
    let mut f = Fixture::at("hello", 0, 0);
    f.feed(["i"]);
    f.type_text("X");
    f.feed(["<Esc>"]);
    assert_eq!(f.text(), "Xhello");
    assert_eq!(f.cursor(), 0);

    // enter splits with autoindent
    let mut f = Fixture::at("  ab", 0, 3);
    f.feed(["i", "<CR>"]);
    f.type_text("c");
    f.feed(["<Esc>"]);
    assert_eq!(f.text(), "  a\n  cb");
}

#[allow(non_snake_case)]
#[test]
fn search_and_nN() {
    let mut f = Fixture::at("foo bar foo baz foo", 0, 0);
    f.feed(["/", "f", "o", "o", "<CR>"]);
    assert_eq!(f.cursor(), 8); // search moves strictly past the cursor
    f.feed(["n"]);
    assert_eq!(f.cursor(), 16);
    f.feed(["n"]);
    assert_eq!(f.cursor(), 0); // wraps
    f.feed(["n"]);
    assert_eq!(f.cursor(), 8);

    f.feed(["N"]);
    assert_eq!(f.cursor(), 0);

    // highlights published
    assert_eq!(f.host.highlights.len(), 3);

    // * searches the word under the cursor
    let mut f = Fixture::at("one two one three two", 0, 4);
    f.feed(["*"]);
    assert_eq!(f.cursor(), 18); // next "two"
}

#[test]
fn marks() {
    let f = {
        let mut f = Fixture::at(MULTI, 0, 0);
        f.feed(["m", "a", "G", "`", "a"]);
        f
    };
    assert_eq!(f.cursor(), 0);
    let f = {
        let mut f = Fixture::at(MULTI, 0, 0);
        f.feed(["m", "a", "G", "'", "a"]);
        f
    };
    assert_eq!(f.cursor(), 0);

    // linewise jump goes to first non-blank
    let f = {
        let mut f = Fixture::at("  hello\nworld", 0, 0);
        f.feed(["m", "b", "j", "'", "b"]);
        f
    };
    assert_eq!(f.cursor(), 2);
}

#[test]
fn user_mappings() {
    let mut f = Fixture::at("abc", 0, 0);
    f.vim
        .keymaps_mut()
        .map_str(ModeClass::Insert, "jk", "<Esc>");
    f.feed(["i"]);
    f.type_text("X");
    assert_eq!(f.vim.mode(), Mode::Insert);
    // typing j alone waits
    f.feed(["j"]);
    assert_eq!(f.vim.mode(), Mode::Insert);
    f.feed(["k"]);
    assert_eq!(f.vim.mode(), Mode::Normal);
    assert_eq!(f.text(), "Xabc");
    assert_eq!(f.cursor(), 0); // esc moved back one

    // normal-mode mapping
    let mut f = Fixture::at(MULTI, 0, 0);
    f.vim
        .keymaps_mut()
        .map_str(ModeClass::Normal, "Q", "g");
    // Q expands to g, which then waits for the second g of gg
    f.feed(["Q", "g"]);
    assert_eq!(f.line(), 0);
}

#[test]
fn unknown_keys_fall_through() {
    // ctrl chords that the engine has no use for go to the host
    let mut f = Fixture::at("abc", 0, 0);
    let result = f.feed_raw(Key::ctrl_char('a'));
    assert_eq!(result, KeyResult::Unknown);
}
