//! Behaviours shared with vim: search direction, text objects, registers, Ex
//! ranges.
#![allow(dead_code)]
use gpui_vim::buffer::{VimBuffer, VimBufferMut};
use gpui_vim::doc::{Cells, Chars, Doc, Offset};
use gpui_vim::host::{Calls, ScrollAnchor, VimHost};
use gpui_vim::key::Key;
use gpui_vim::state::{Ctx, KeyResult, VimState};
use std::cell::RefCell;
use std::ops::Range;
use std::rc::Rc;
use gpui_vim::buffer::char_display_width;
use gpui_vim::key::parse_key_sequence;
use gpui_vim::registers::{RegisterKind, CLIPBOARD, UNNAMED, YANK};

type Shared = Rc<RefCell<String>>;

#[derive(Clone)]
struct BufferView(Shared);

impl VimBuffer for BufferView {
    fn doc(&self) -> Doc {
        unreachable!()
    }
    fn doc_wf(&self) {}
    fn piece(_: Doc, _: Offset, _: Offset) -> Chars {
        unreachable!()
    }
    fn piece_exact(_: Doc, _: Offset, _: Offset) {}
    fn len(&self) -> usize {
        self.0.borrow().len()
    }
    fn line_count(&self) -> usize {
        let text = self.0.borrow();
        if text.is_empty() {
            1
        } else if text.ends_with('\n') {
            text.split('\n').count() - 1
        } else {
            text.split('\n').count()
        }
    }
    fn char_at(&self, offset: usize) -> Option<char> {
        let text = self.0.borrow();
        if offset >= text.len() || !text.is_char_boundary(offset) {
            return None;
        }
        text[offset..].chars().next()
    }
    fn prev_char_offset(&self, offset: usize) -> Option<usize> {
        let text = self.0.borrow();
        if offset == 0 || offset > text.len() || !text.is_char_boundary(offset) {
            return None;
        }
        text[..offset].chars().next_back().map(|c| offset - c.len_utf8())
    }
    fn line_range(&self, line: usize) -> Range<usize> {
        let text = self.0.borrow();
        let parts = text.split('\n').count();
        let total = if !text.is_empty() && text.ends_with('\n') { parts - 1 } else { parts };
        if line >= total {
            return text.len()..text.len();
        }
        let mut start = 0usize;
        for (i, part) in text.split('\n').enumerate() {
            if i == line {
                let end = if i + 1 == parts { start + part.len() } else { start + part.len() + 1 };
                return start..end;
            }
            start += part.len() + 1;
        }
        start..start
    }
    fn offset_to_line(&self, offset: usize) -> usize {
        let text = self.0.borrow();
        let offset = offset.min(text.len());
        let line = text[..offset].split('\n').count() - 1;
        line.min(self.line_count() - 1)
    }
    fn slice(&self, range: Range<usize>) -> String {
        self.0.borrow()[range].to_owned()
    }
}

impl VimBufferMut for BufferView {
    fn blanks_join_their_line(_: Doc, _: Offset, _: Chars) {}
    fn edition(&self) -> u64 {
        0
    }
    fn next_edition(n: u64) -> u64 {
        n
    }
    fn editable(&self) -> bool {
        true
    }
    fn doc_of(_: Cells) -> Doc {
        unreachable!()
    }
    fn edited(_: Doc, _: Offset, _: Offset, _: Chars) -> Doc {
        unreachable!()
    }
    fn takes(_: Chars) -> bool {
        true
    }
    fn edited_exact(_: Doc, _: Offset, _: Offset, _: Chars) {}
    fn insert_text(&mut self, offset: usize, text: &str) {
        self.0.borrow_mut().insert_str(offset, text);
    }
    fn delete_range(&mut self, range: Range<usize>) {
        self.0.borrow_mut().replace_range(range, "");
    }
}

struct HostView {
    text: Shared,
    viewport: (usize, usize),
    clipboard: Option<String>,
    highlights: Vec<Range<usize>>,
    current_highlight: Option<Range<usize>>,
    scrolled_to: Vec<usize>,
    group_count: usize,
    saved: usize,
    close_requested: bool,
    close_forced: bool,
    statuses: Vec<String>,
    actions: Vec<String>,
    bells: usize,
    undo_stack: Vec<(String, usize)>,
    redo_stack: Vec<(String, usize)>,
    open_group: Option<u64>,
}

impl VimHost for HostView {
    fn told(&self) -> Calls {
        unreachable!()
    }
    fn serves(&self, _: &Self, _: Calls) -> bool {
        true
    }
    fn serves_nothing(&self) {}
    fn seen_lines(&self) -> (usize, usize) {
        self.viewport()
    }
    fn clip(&self) -> Option<Chars> {
        unreachable!()
    }
    fn viewport(&self) -> (usize, usize) {
        self.viewport
    }
    fn scroll_to_line(&mut self, line: usize) {
        self.scrolled_to.push(line);
    }
    fn clipboard_write(&mut self, text: &str) {
        self.clipboard = Some(text.to_owned());
    }
    fn clipboard_read(&self) -> Option<String> {
        self.clipboard.clone()
    }
    fn set_search_highlights(&mut self, matches: &[Range<usize>], current: Option<Range<usize>>) {
        self.highlights = matches.to_vec();
        self.current_highlight = current;
    }
    fn begin_undo_group<B: VimBuffer>(&mut self, _: &B, id: u64, cursor: usize) {
        if self.open_group != Some(id) {
            self.undo_stack.push((self.text.borrow().clone(), cursor));
            self.open_group = Some(id);
            self.group_count += 1;
        }
    }
    fn undo<B: VimBufferMut>(&mut self, _: &mut B) -> Option<usize> {
        let (text, cursor) = self.undo_stack.pop()?;
        self.redo_stack.push((self.text.borrow().clone(), cursor));
        *self.text.borrow_mut() = text;
        self.open_group = None;
        Some(cursor)
    }
    fn redo<B: VimBufferMut>(&mut self, _: &mut B) -> Option<usize> {
        let (text, cursor) = self.redo_stack.pop()?;
        self.undo_stack.push((self.text.borrow().clone(), cursor));
        *self.text.borrow_mut() = text;
        self.open_group = None;
        Some(cursor)
    }
    fn bell(&mut self) {
        self.bells += 1;
    }
    fn save<B: VimBuffer>(&mut self, _: &B) {
        self.saved += 1;
    }
    fn request_close_hinted(&mut self, force: bool) {
        self.close_requested = true;
        self.close_forced = force;
    }
    fn status_message(&mut self, message: &str) {
        self.statuses.push(message.to_owned());
    }
    fn buffer_name(&self) -> &str {
        "test-buffer"
    }
    fn dispatch_host_action_hinted(&mut self, id: &str, _strict: bool) {
        self.actions.push(id.to_owned());
    }
    fn scroll_to_line_anchored(&mut self, line: usize, _: ScrollAnchor) {
        self.scroll_to_line(line);
    }
    fn changed(&mut self) {}
}

/// One engine session over one buffer.
struct Fixture {
    buf: BufferView,
    host: HostView,
    vim: VimState,
}

impl Fixture {
    fn new(initial: &str) -> Self {
        let shared: Shared = Rc::new(RefCell::new(initial.to_owned()));
        Fixture {
            buf: BufferView(shared.clone()),
            host: HostView {
                text: shared,
                viewport: (0, 9),
                clipboard: None,
                highlights: Vec::new(),
                current_highlight: None,
                scrolled_to: Vec::new(),
                group_count: 0,
                saved: 0,
                close_requested: false,
                close_forced: false,
                statuses: Vec::new(),
                actions: Vec::new(),
                bells: 0,
                undo_stack: Vec::new(),
                redo_stack: Vec::new(),
                open_group: None,
            },
            vim: VimState::new(),
        }
    }

    fn at(initial: &str, line: usize, col: usize) -> Self {
        let mut f = Fixture::new(initial);
        let line_start = f.buf.line_start(line);
        f.vim.cursor.offset = line_start + col;
        f
    }

    fn feed<I: AsRef<str>>(&mut self, keys: impl IntoIterator<Item = I>) -> &mut Self {
        for k in keys {
            let key = Key::parse(k.as_ref());
            let mut ctx = Ctx { buf: &mut self.buf, host: &mut self.host };
            let _ = self.vim.handle_key(&mut ctx, key);
        }
        self
    }

    fn feed_raw(&mut self, key: Key) -> KeyResult {
        let mut ctx = Ctx { buf: &mut self.buf, host: &mut self.host };
        self.vim.handle_key(&mut ctx, key)
    }

    /// The text-input path: what the host does with typed text.
    fn type_text(&mut self, s: &str) {
        let mut ctx = Ctx { buf: &mut self.buf, host: &mut self.host };
        self.vim.insert_text_at_cursor(&mut ctx, s);
    }

    fn text(&self) -> String {
        self.buf.0.borrow().clone()
    }

    fn cursor(&self) -> usize {
        self.vim.cursor.offset
    }

    fn line(&self) -> usize {
        self.buf.offset_to_line(self.vim.cursor.offset)
    }
}

/// Run `keys` from `(line, col)` and return the fixture.
fn edit(initial: &str, line: usize, col: usize, keys: &[&str]) -> Fixture {
    let mut f = Fixture::at(initial, line, col);
    f.feed(keys);
    f
}

fn feed(edit: &mut Fixture, keys: &str) {
    for k in parse_key_sequence(keys) {
        edit.feed_raw(k);
    }
}

// ---- n / N go by the direction of the last search -------------------------------------------------

#[test]
fn n_after_question_search_goes_backward() {
    let mut f = Fixture::at("b b b", 0, 4);
    feed(&mut f, "?b<CR>");
    assert_eq!(f.cursor(), 2);
    f.feed(["n"]);
    assert_eq!(f.cursor(), 0, "n goes on backward after ?");
    f.feed(["N"]);
    assert_eq!(f.cursor(), 2, "N goes the other way");
}

#[test]
fn n_after_slash_search_stays_forward() {
    let mut f = Fixture::at("b b b", 0, 0);
    feed(&mut f, "/b<CR>");
    assert_eq!(f.cursor(), 2);
    f.feed(["n"]);
    assert_eq!(f.cursor(), 4);
    f.feed(["N"]);
    assert_eq!(f.cursor(), 2);
}

// ---- * / # off a word -------------------------------------------------------

#[test]
fn star_on_whitespace_finds_next_word_on_line() {
    // off a word, `*` takes the next one in the line
    let mut f = Fixture::at("foo bar baz", 0, 3); // on the space behind foo
    feed(&mut f, "*");
    assert_eq!(f.cursor(), 4, "at bar");
    assert_eq!(
        f.vim.search.pattern.as_deref(),
        Some(r"\bbar\b"),
        "模式不应含空白"
    );
}

#[test]
fn star_on_last_word_char_of_buffer() {
    let mut f = Fixture::at("a b c", 0, 4);
    feed(&mut f, "*");
    assert_eq!(f.vim.search.pattern.as_deref(), Some(r"\bc\b"));
}

// ---- t / T stay in their line ----------------------------------------------------------------

#[test]
fn till_target_at_line_start_fails_instead_of_crossing_lines() {
    let f = edit("xabc\nxabc", 1, 2, &["t", "x"]);
    assert_eq!(f.line(), 1, "a motion that fails stays in its line");
}

#[test]
fn backward_till_hit_at_line_end_fails() {
    // nothing to stop at right of the last character
    let f = edit("abcz", 0, 0, &["T", "z"]);
    assert_eq!(f.cursor(), 0, "a motion that fails does not move");
}

#[test]
fn backward_till_within_line_still_works() {
    let f = edit("abcd", 0, 3, &["T", "a"]);
    assert_eq!(f.cursor(), 1);
}

#[test]
fn till_finds_within_line_still_works() {
    let f = edit("abcb", 0, 0, &["t", "b"]);
    assert_eq!(f.cursor(), 0);
    let f = edit("abcb", 0, 2, &["t", "b"]);
    assert_eq!(f.cursor(), 2);
}

// ---- an uppercase register appends ---------------------------------------------------------------

#[test]
fn uppercase_register_appends() {
    let mut f = Fixture::at("one\ntwo\nthree\n", 0, 0);
    f.feed(["\"", "a", "y", "y", "j", "\"", "A", "y", "y"]);
    let reg = f.vim.registers.get('a').cloned().expect("register a");
    assert_eq!(reg.text, "one\ntwo\n");
    assert_eq!(reg.kind, RegisterKind::Linewise);
    // the unnamed register holds the whole
    let unnamed = f.vim.registers.get(UNNAMED).cloned().unwrap();
    assert_eq!(unnamed.text, "one\ntwo\n");
}

#[test]
fn uppercase_charwise_append() {
    let mut f = Fixture::at("abcd", 0, 0);
    f.feed(["\"", "a", "y", "l", "l", "\"", "A", "y", "l"]);
    let reg = f.vim.registers.get('a').cloned().unwrap();
    assert_eq!(reg.text, "ab", "charwise text is appended");
    assert_eq!(reg.kind, RegisterKind::Charwise);
}

#[test]
fn uppercase_delete_appends_and_pastes() {
    let mut f = Fixture::at("aa\nbb\ncc\n", 0, 0);
    f.feed(["\"", "a", "d", "d"]);
    f.feed(["\"", "A", "d", "d"]);
    f.feed(["\"", "a", "p"]);
    assert_eq!(f.text(), "cc\naa\nbb\n", "both deletions come out");
}

// ---- empty text objects -----------------------------------------------------------------

#[test]
fn ci_quote_on_empty_pair_enters_insert() {
    let mut f = Fixture::at("\"\"", 0, 1);
    f.feed(["c", "i", "\""]);
    f.type_text("x");
    f.feed(["<Esc>"]);
    assert_eq!(f.text(), "\"x\"", "empty quotes can be filled");
}

#[test]
fn ci_paren_on_empty_pair_enters_insert() {
    let mut f = Fixture::at("f()", 0, 2);
    f.feed(["c", "i", "("]);
    f.type_text("y");
    f.feed(["<Esc>"]);
    assert_eq!(f.text(), "f(y)", "empty brackets can be filled");
}

#[test]
fn ci_paren_with_cursor_on_open_paren() {
    let mut f = Fixture::at("(ab)", 0, 0);
    f.feed(["c", "i", "("]);
    f.type_text("x");
    f.feed(["<Esc>"]);
    assert_eq!(f.text(), "(x)", "a bracket belongs to its block");
}

#[test]
fn visual_i_paren_on_empty_pair_collapses() {
    let mut f = Fixture::at("()", 0, 0);
    f.feed(["v", "i", "("]);
    assert_eq!(f.cursor(), 1, "an empty selection is where the object begins");
}

// ---- C-e / C-y and Tab ------------------------------------------------------------

#[test]
fn ctrl_e_and_ctrl_y_scroll_the_view() {
    let text = (0..20).map(|i| format!("l{i}")).collect::<Vec<_>>().join("\n");
    let mut f = Fixture::new(&text);
    f.host.viewport = (0, 4); // five lines
    f.feed(["G"]);
    f.host.viewport = (0, 4);
    f.host.scrolled_to.clear();
    let before = f.line();
    f.feed(["<C-y>"]);
    assert!(
        f.host.scrolled_to.contains(&before),
        "C-y 应保证光标行仍可见（视图上移）"
    );
}

#[test]
fn tab_jumps_forward_like_c_i() {
    let text = "one\ntwo\nthree\nfour".to_owned();
    let mut f = Fixture::at(&text, 1, 0);
    f.feed(["G"]); // jump: line 1 -> line 3
    assert_eq!(f.line(), 3);
    f.feed(["<C-o>"]); // back to line 1
    assert_eq!(f.line(), 1);
    f.feed(["<Tab>"]); // forward again — same entry as <C-i>
    assert_eq!(f.line(), 3, "Tab is C-i");
}

// ---- % with a count ------------------------------------------------------------

#[test]
fn percent_with_count_jumps_to_file_percentage() {
    let text = (0..101).map(|i| format!("line{i}")).collect::<Vec<_>>().join("\n");
    let f = edit(&text, 0, 0, &["5", "0", "%"]);
    assert_eq!(f.line(), 50, "half of the file");
    let f = edit(&text, 10, 0, &["1", "0", "0", "%"]);
    assert_eq!(f.line(), 100);
}

// ---- :N goes to a line ----------------------------------------------------------------------

#[test]
fn colon_number_jumps_to_line() {
    let text = "a\nb\nc\nd\n".to_owned();
    let f = edit(&text, 0, 0, &[":", "3", "<CR>"]);
    assert_eq!(f.line(), 2);
}

// ---- the flags i and I of :s ---------------------------------------------------------------

#[test]
fn substitute_i_flag_forces_case_insensitive() {
    // smartcase is on: the flag overrides it
    let mut f = Fixture::at("Foo foo FOO", 0, 0);
    f.feed([":", "s", "/", "F", "o", "o", "/", "X", "/", "g", "i", "<CR>"]);
    assert_eq!(f.text(), "X X X", "i ignores case");
}

#[test]
fn substitute_capital_i_flag_forces_case_sensitive() {
    let mut f = Fixture::at("Foo foo FOO", 0, 0);
    f.feed([":", "%", "s", "/", "f", "o", "o", "/", "X", "/", "g", "I", "<CR>"]);
    assert_eq!(f.text(), "Foo X FOO", "I does not");
}

// ---- marks in Ex ranges ---------------------------------------------------------------

#[test]
fn mark_range_substitute() {
    let mut f = Fixture::at("x\nfoo\nfoo\nfoo\nx", 0, 0);
    f.feed(["j", "m", "a", "j", "m", "b"]); // 'a=line1, 'b=line2
    f.feed([":", "'", "a", ",", "'", "b", "s", "/", "f", "o", "o", "/", "b", "a", "r", "/", "<CR>"]);
    assert_eq!(f.text(), "x\nbar\nbar\nfoo\nx", "both lines change");
}

// ---- @: repeats the last Ex command -------------------------------------------------------------

#[test]
fn at_colon_repeats_last_ex_command() {
    let mut f = Fixture::at("foo\nbar\nfoo\nbaz\nfoo\nqux", 0, 0);
    f.feed([":", "s", "/", "f", "o", "o", "/", "X", "/", "<CR>"]);
    assert_eq!(f.text(), "X\nbar\nfoo\nbaz\nfoo\nqux");
    f.feed(["j", "j", "@", ":"]); // line 2
    assert_eq!(f.text(), "X\nbar\nX\nbaz\nfoo\nqux");
    f.feed(["j", "j", "@", ":"]); // line 4
    assert_eq!(f.text(), "X\nbar\nX\nbaz\nX\nqux");
}

// ---- Backspace in Replace mode -----------------------------------------------------

#[test]
fn replace_mode_backspace_restores_overwritten_chars() {
    let mut f = Fixture::at("abcdef", 0, 0);
    f.feed(["R"]);
    f.type_text("XYZ");
    assert_eq!(f.text(), "XYZdef");
    f.feed_raw(Key::named("backspace"));
    f.feed_raw(Key::named("backspace"));
    f.feed(["<Esc>"]);
    assert_eq!(f.text(), "Xbcdef", "c and b come back");
    assert_eq!(f.cursor(), 0);

    let mut f = Fixture::at("abcdef", 0, 0);
    f.feed(["R"]);
    f.type_text("XYZ");
    for _ in 0..3 {
        f.feed_raw(Key::named("backspace"));
    }
    f.feed(["<Esc>"]);
    assert_eq!(f.text(), "abcdef", "everything comes back");
}

#[test]
fn replace_mode_backspace_past_line_end_deletes() {
    // behind the end of the line there is nothing to bring back
    let mut f = Fixture::at("abc", 0, 0);
    f.feed(["R"]);
    f.type_text("abcdefgh");
    assert_eq!(f.text(), "abcdefgh");
    f.feed_raw(Key::named("backspace"));
    f.feed_raw(Key::named("backspace"));
    f.feed(["<Esc>"]);
    assert_eq!(f.text(), "abcdef");
}

// ---- gq goes by display width ----------------------------------------------------------------

#[test]
fn gq_wraps_by_display_width_for_cjk() {
    // each word takes four columns: two of them fit
    let mut f = Fixture::at("中中 中中 中中 中中 中中\n", 0, 0);
    f.vim.options_mut().textwidth = 10;
    f.feed(["g", "q", "q"]);
    for line in f.text().lines() {
        let w: usize = line.chars().map(char_display_width).sum();
        assert!(w <= 10, "a line is too wide: {line}");
    }
    assert_eq!(f.text().lines().count(), 3, "two, two and one");
}

// ---- :q and :q! ------------------------------------------------------------------

#[test]
fn plain_q_is_not_forced_but_q_bang_is() {
    let mut f = Fixture::at("x", 0, 0);
    f.feed([":", "q", "<CR>"]);
    assert!(f.host.close_requested);
    assert!(!f.host.close_forced, ":q does not force");

    let mut f = Fixture::at("x", 0, 0);
    f.feed([":", "q", "!", "<CR>"]);
    assert!(f.host.close_requested);
    assert!(f.host.close_forced, ":q! forces");

    let mut f = Fixture::at("x", 0, 0);
    f.feed(["Z", "Z"]);
    assert!(f.host.close_forced, "ZZ forces");
    let mut f = Fixture::at("x", 0, 0);
    f.feed(["Z", "Q"]);
    assert!(f.host.close_forced, "ZQ is :q!");
}

// ---- / and ? share their history -----------------------------------------------------------------

#[test]
fn search_history_is_shared_between_slash_and_question() {
    let mut f = Fixture::at("abc abc", 0, 0);
    feed(&mut f, "/abc<CR>");
    feed(&mut f, "?");
    f.feed_raw(Key::named("up"));
    assert_eq!(f.vim.cmdline.buffer, "abc", "? shows what / searched for");
}

// ---- registers ------------------------------------------------------------

#[test]
fn yank_register_roundtrip_intact() {
    let mut f = Fixture::at("hello", 0, 0);
    f.feed(["y", "y"]);
    assert_eq!(f.vim.registers.get(YANK).map(|r| r.text.clone()), Some("hello".into()));
    assert_eq!(f.vim.registers.get(CLIPBOARD), None, "a named yank leaves + alone");
}
