//! Keystrokes and text on their way to the engine, and what is painted then.
use gpui_vim::buffer::{VimBuffer, VimBufferMut};
use gpui_vim::doc::{Cells, Chars, Doc, Offset};
use gpui_vim::dispatch::{dispatch_text, to_core_key, Keystroke};
use gpui_vim::host::{Calls, ScrollAnchor, VimHost};
use gpui_vim::key::{Key, Modifiers};
use gpui_vim::mode::{Mode, VisualKind};
use gpui_vim::overlay::{compute_line_overlays, LineOverlayInputs, LineOverlays, Paint};
use gpui_vim::state::{Ctx, KeyResult, VimState};
use std::cell::RefCell;
use std::ops::Range;
use std::rc::Rc;

#[derive(Clone)]
struct TestBuf(Rc<RefCell<String>>);

impl VimBuffer for TestBuf {
    fn doc(&self) -> Doc {
        unreachable!()
    }
    fn doc_wf(&self) {}
    fn piece(_: Doc, _: Offset, _: Offset) -> Chars {
        unreachable!()
    }
    fn piece_exact(_: Doc, _: Offset, _: Offset) {}
    fn len(&self) -> usize {
        self.0.borrow().len()
    }
    fn line_count(&self) -> usize {
        self.0.borrow().split('\n').count()
    }
    fn char_at(&self, offset: usize) -> Option<char> {
        self.0.borrow().get(offset..)?.chars().next()
    }
    fn prev_char_offset(&self, offset: usize) -> Option<usize> {
        if offset == 0 || offset > self.0.borrow().len() {
            return None;
        }
        self.0.borrow()[..offset].chars().next_back().map(|c| offset - c.len_utf8())
    }
    fn line_range(&self, line: usize) -> Range<usize> {
        let text = self.0.borrow();
        let lines = text.split('\n').count();
        let mut start = 0;
        for (i, part) in text.split('\n').enumerate() {
            if i == line {
                let newline = if i + 1 < lines { 1 } else { 0 };
                return start..start + part.len() + newline;
            }
            start += part.len() + 1;
        }
        text.len()..text.len()
    }
    fn offset_to_line(&self, offset: usize) -> usize {
        self.0.borrow()[..offset.min(self.0.borrow().len())].split('\n').count() - 1
    }
    fn slice(&self, range: Range<usize>) -> String {
        self.0.borrow()[range].to_owned()
    }
}

impl VimBufferMut for TestBuf {
    fn blanks_join_their_line(_: Doc, _: Offset, _: Chars) {}
    fn edition(&self) -> u64 {
        0
    }
    fn next_edition(n: u64) -> u64 {
        n
    }
    fn editable(&self) -> bool {
        true
    }
    fn doc_of(_: Cells) -> Doc {
        unreachable!()
    }
    fn edited(_: Doc, _: Offset, _: Offset, _: Chars) -> Doc {
        unreachable!()
    }
    fn takes(_: Chars) -> bool {
        true
    }
    fn edited_exact(_: Doc, _: Offset, _: Offset, _: Chars) {}
    fn insert_text(&mut self, offset: usize, text: &str) {
        self.0.borrow_mut().insert_str(offset, text);
    }
    fn delete_range(&mut self, range: Range<usize>) {
        self.0.borrow_mut().replace_range(range, "");
    }
}

struct NoopHost;
impl VimHost for NoopHost {
    fn told(&self) -> Calls {
        unreachable!()
    }
    fn serves(&self, _: &Self, _: Calls) -> bool {
        true
    }
    fn serves_nothing(&self) {}
    fn seen_lines(&self) -> (usize, usize) {
        self.viewport()
    }
    fn clip(&self) -> Option<Chars> {
        unreachable!()
    }
    fn viewport(&self) -> (usize, usize) {
        (0, 24)
    }
    fn scroll_to_line(&mut self, _: usize) {}
    fn clipboard_write(&mut self, _: &str) {}
    fn clipboard_read(&self) -> Option<String> {
        None
    }
    fn set_search_highlights(&mut self, _: &[Range<usize>], _: Option<Range<usize>>) {}
    fn begin_undo_group<B: VimBuffer>(&mut self, _: &B, _: u64, _: usize) {}
    fn undo<B: VimBufferMut>(&mut self, _: &mut B) -> Option<usize> {
        None
    }
    fn redo<B: VimBufferMut>(&mut self, _: &mut B) -> Option<usize> {
        None
    }
    fn scroll_to_line_anchored(&mut self, line: usize, _: ScrollAnchor) {
        self.scroll_to_line(line);
    }
    fn changed(&mut self) {}
    fn bell(&mut self) {}
    fn save<B: VimBuffer>(&mut self, _: &B) {}
    fn request_close_hinted(&mut self, _: bool) {
        self.request_close();
    }
    fn status_message(&mut self, _: &str) {}
    fn dispatch_host_action_hinted(&mut self, _: &str, _: bool) {}
}

fn dispatch(vim: &mut VimState, buf: &mut TestBuf, key: Key) -> KeyResult {
    let mut ctx = Ctx { buf, host: &mut NoopHost };
    vim.handle_key(&mut ctx, key)
}

fn text(s: &str) -> TestBuf {
    TestBuf(Rc::new(RefCell::new(s.to_owned())))
}

/// A keystroke by the name of its key, without the text that it would type.
fn named(key: &str, modifiers: Modifiers) -> Keystroke {
    Keystroke { modifiers, key: key.to_owned(), key_char: None, function: false }
}

fn typed(key: &str, key_char: &str, modifiers: Modifiers) -> Keystroke {
    Keystroke {
        modifiers,
        key: key.to_owned(),
        key_char: Some(key_char.to_owned()),
        function: false,
    }
}

fn shift() -> Modifiers {
    Modifiers { shift: true, ..Modifiers::none() }
}

#[test]
fn conversion_plain_chars() {
    let k = named("a", Modifiers::none());
    assert_eq!(to_core_key(&k), Key::char('a'));
    let k = named("d", shift());
    assert_eq!(to_core_key(&k).printable_char(), Some('D'));
}

#[test]
fn conversion_named_and_chords() {
    let k = named("escape", Modifiers::none());
    assert_eq!(to_core_key(&k), Key::escape());
    let k = named("a", Modifiers::ctrl());
    assert_eq!(to_core_key(&k), Key::ctrl_char('a'));
    let k = named("space", Modifiers::none());
    assert_eq!(to_core_key(&k).printable_char(), Some(' '));
}

#[test]
fn conversion_enter_and_tab_carry_control_key_chars_on_macos() {
    let enter = typed("enter", "\n", Modifiers::none());
    assert_eq!(to_core_key(&enter), Key::enter());
    let tab = typed("tab", "\t", Modifiers::none());
    assert_eq!(to_core_key(&tab), Key::tab());
}

#[test]
fn macos_enter_executes_search_end_to_end() {
    let buf = text("foo bar foo baz");
    let mut vim = VimState::new();

    for c in "/foo".chars() {
        assert_eq!(dispatch(&mut vim, &mut buf.clone(), Key::char(c)), KeyResult::Consumed);
    }
    assert!(matches!(vim.mode(), Mode::CommandLine { prompt: '/' }));
    assert_eq!(vim.cmdline.buffer, "foo");

    let enter = typed("enter", "\n", Modifiers::none());
    assert_eq!(dispatch(&mut vim, &mut buf.clone(), to_core_key(&enter)), KeyResult::Consumed);
    assert_eq!(vim.mode(), Mode::Normal);
    assert_eq!(vim.cursor_offset(), 8); // jumped to the second "foo"
    assert_eq!(vim.cmdline.buffer, "");
}

#[test]
fn macos_shift_letter_reaches_normal_commands() {
    // `I`, `A`, `V` arrive as shift + base key + uppercase key_char
    let mk = |key: &str, ch: char| typed(key, &ch.to_string(), shift());

    // `I`: first non-blank + insert mode
    let buf = text("    indented\n");
    let mut vim = VimState::new();
    dispatch(&mut vim, &mut buf.clone(), to_core_key(&mk("i", 'I')));
    assert_eq!(vim.mode(), Mode::Insert);
    assert_eq!(vim.cursor_offset(), 4);

    // `A`: line end + insert mode
    let buf = text("tail\n");
    let mut vim = VimState::new();
    dispatch(&mut vim, &mut buf.clone(), to_core_key(&mk("a", 'A')));
    assert_eq!(vim.mode(), Mode::Insert);
    assert_eq!(vim.cursor_offset(), 4);

    // `V`: visual-line mode
    let buf = text("alpha\nbeta\n");
    let mut vim = VimState::new();
    dispatch(&mut vim, &mut buf.clone(), to_core_key(&mk("v", 'V')));
    assert_eq!(vim.mode(), Mode::Visual { kind: VisualKind::Line });
}

#[test]
fn command_chords_use_the_base_key() {
    let k = typed("a", "å", Modifiers { alt: true, ..Modifiers::none() });
    assert_eq!(
        to_core_key(&k),
        Key { modifiers: Modifiers { alt: true, ..Modifiers::none() }, ..Key::char('a') }
    );
}

#[test]
fn text_runs_commands_and_types_the_rest() {
    let mut buf = text("one two\n");
    let mut vim = VimState::new();
    {
        let mut ctx = Ctx { buf: &mut buf, host: &mut NoopHost };
        dispatch_text(&mut vim, &mut ctx, "ciwhello");
    }
    assert_eq!(*buf.0.borrow(), "hello two\n");
    assert_eq!(vim.mode(), Mode::Insert);
}

#[test]
fn a_declined_char_is_placed_once() {
    let mut buf = text("\n");
    let mut vim = VimState::new();
    assert_eq!(dispatch(&mut vim, &mut buf, Key::char('i')), KeyResult::Consumed);
    assert_eq!(dispatch(&mut vim, &mut buf, Key::char('x')), KeyResult::Unknown);
    {
        let mut ctx = Ctx { buf: &mut buf, host: &mut NoopHost };
        dispatch_text(&mut vim, &mut ctx, "x");
    }
    assert_eq!(*buf.0.borrow(), "x\n");
    assert_eq!(vim.take_pending_unknown_char(), None);
}

// ---- overlays ----------------------------------------------------------------------

fn overlays(
    vim: &VimState,
    buf: &TestBuf,
    line: usize,
    highlights: &[Range<usize>],
    caret_visible: bool,
) -> LineOverlays {
    compute_line_overlays(&LineOverlayInputs {
        vim,
        buf,
        line,
        search_highlights: highlights,
        search_current: None,
        ime_marked: None,
        caret_visible,
    })
}

#[test]
fn search_highlights_render_as_quads() {
    let buf = text("foo bar foo\n");
    let vim = VimState::new();
    let highlights = vec![0..3, 8..11];
    let o = overlays(&vim, &buf, 0, &highlights, true);
    assert_eq!(o.quads.len(), 2);
    assert_eq!(o.quads[0].range, 0..3);
    assert_eq!(o.quads[1].range, 8..11);
}

#[test]
fn char_selection_and_caret_line_gating() {
    let buf = text("abcdef\ngh\n");
    let mut vim = VimState::new();
    // enter charwise visual and extend to cover "abcd"
    dispatch(&mut vim, &mut buf.clone(), Key::char('v'));
    dispatch(&mut vim, &mut buf.clone(), Key::char('l'));
    dispatch(&mut vim, &mut buf.clone(), Key::char('l'));
    dispatch(&mut vim, &mut buf.clone(), Key::char('l'));
    let o = overlays(&vim, &buf, 0, &[], true);
    assert_eq!(o.quads.len(), 1);
    assert_eq!(o.quads[0].range, 0..4); // v..cursor inclusive (cursor on 'd')
    assert_eq!(o.cursor, Some(3));
    assert!(o.cursor_block);

    // another line: no quads, no cursor
    let o = overlays(&vim, &buf, 1, &[], true);
    assert!(o.quads.is_empty());
    assert_eq!(o.cursor, None);

    // caret hidden by the blink phase
    let o = overlays(&vim, &buf, 0, &[], false);
    assert_eq!(o.cursor, None);
    assert!(!o.quads.is_empty());
}

#[test]
fn line_selection_is_full_width() {
    let buf = text("abcdef\ngh\n");
    let mut vim = VimState::new();
    dispatch(&mut vim, &mut buf.clone(), Key::char('V'));
    let o = overlays(&vim, &buf, 0, &[], true);
    assert_eq!(o.quads.len(), 1);
    assert!(o.quads[0].full_width, "linewise quad spans the full width");
}

#[test]
fn block_selection_quad_per_row() {
    let buf = text("abcd\nefgh\n");
    let mut vim = VimState::new();
    // C-v j l: block cols 0..1 on lines 0-1
    dispatch(&mut vim, &mut buf.clone(), Key::ctrl_char('v'));
    dispatch(&mut vim, &mut buf.clone(), Key::char('j'));
    dispatch(&mut vim, &mut buf.clone(), Key::char('l'));
    let o0 = overlays(&vim, &buf, 0, &[], true);
    assert_eq!(o0.quads.len(), 1);
    assert_eq!(o0.quads[0].range, 0..2);
    let o1 = overlays(&vim, &buf, 1, &[], true);
    assert_eq!(o1.quads.len(), 1);
    assert_eq!(o1.quads[0].range, 0..2);
}

#[test]
fn a_highlight_over_two_lines_is_cut_at_their_ends() {
    let buf = text("abc\ndef\n");
    let vim = VimState::new();
    let hits = [1..6];
    let quads = |line: usize| {
        compute_line_overlays(&LineOverlayInputs {
            vim: &vim,
            buf: &buf,
            line,
            search_highlights: &hits,
            search_current: Some(1..6),
            ime_marked: Some(4..5),
            caret_visible: true,
        })
        .quads
    };
    let first = quads(0);
    assert_eq!(first.len(), 1);
    assert_eq!((first[0].range.clone(), first[0].color), (1..3, Paint::SearchCurrent));
    let second = quads(1);
    assert_eq!(second.len(), 2);
    assert_eq!((second[0].range.clone(), second[0].color), (0..2, Paint::SearchCurrent));
    assert_eq!((second[1].range.clone(), second[1].color), (0..1, Paint::Mark));
}
