//! The buffer of lines, and the edit box over it.
use gpui_vim::edit_host::EditHost;
use gpui_vim::key::Key;
use gpui_vim::lines::{LinesBuf, SharedLines};
use gpui_vim::mode::Mode;
use gpui_vim::state::{Ctx, KeyResult, VimState};
use gpui_vim::tck::{buffer_edit_contract, buffer_read_contract, engine_smoke_contract};

/// An engine and a buffer of one empty line, as when an editor opens.
fn setup() -> (LinesBuf, EditHost, VimState) {
    let mut storage = SharedLines::default();
    storage.set(vec![String::new()]);
    (LinesBuf(storage), EditHost::new(), VimState::new())
}

/// Enter breaks the line even when the text is a single line so far.
#[test]
fn insert_enter_creates_line() {
    let (mut buf, mut host, mut vim) = setup();
    let mut ctx = Ctx {
        buf: &mut buf,
        host: &mut host,
    };
    vim.handle_key(&mut ctx, Key::char('i'));
    vim.insert_text_at_cursor(&mut ctx, "收件人");
    assert_eq!(vim.handle_key(&mut ctx, Key::enter()), KeyResult::Consumed);
    vim.insert_text_at_cursor(&mut ctx, "正文");
    let lines = buf.0.get();
    assert_eq!(*lines, vec!["收件人".to_string(), "正文".to_string()]);
}

/// `o` opens a line below.
#[test]
fn normal_o_opens_line_below() {
    let (mut buf, mut host, mut vim) = setup();
    buf.0.set(vec!["hello".to_string()]);
    let mut ctx = Ctx {
        buf: &mut buf,
        host: &mut host,
    };
    assert_eq!(
        vim.handle_key(&mut ctx, Key::char('o')),
        KeyResult::Consumed
    );
    let lines = buf.0.get();
    assert_eq!(*lines, vec!["hello".to_string(), String::new()]);
    assert!(matches!(vim.mode, Mode::Insert), "o enters insert mode");
}

/// Enter behind a multi-byte character at the end of a line.
#[test]
fn cjk_line_tail_enter_no_panic() {
    let (mut buf, mut host, mut vim) = setup();
    buf.0.set(vec!["第一行收件人".to_string()]);
    let mut ctx = Ctx {
        buf: &mut buf,
        host: &mut host,
    };
    vim.handle_key(&mut ctx, Key::char('A')); // insert at the end of the line
    assert_eq!(vim.handle_key(&mut ctx, Key::enter()), KeyResult::Consumed);
    assert_eq!(buf.0.get().len(), 2, "enter breaks the line");
    assert_eq!(buf.0.get()[0], "第一行收件人");
}

/// `dd` leaves the other lines as they are.
#[test]
fn dd_keeps_line_structure() {
    let (mut buf, mut host, mut vim) = setup();
    buf.0.set(vec![
        "one".to_string(),
        "two".to_string(),
        "three".to_string(),
    ]);
    let mut ctx = Ctx {
        buf: &mut buf,
        host: &mut host,
    };
    vim.handle_key(&mut ctx, Key::char('d'));
    vim.handle_key(&mut ctx, Key::char('d'));
    let lines = buf.0.get();
    assert_eq!(*lines, vec!["two".to_string(), "three".to_string()]);
}

/// The lines of a field of one line are joined by spaces.
#[test]
fn join_semantics_for_single_line_fields() {
    let (mut buf, mut host, mut vim) = setup();
    let mut ctx = Ctx {
        buf: &mut buf,
        host: &mut host,
    };
    vim.handle_key(&mut ctx, Key::char('i'));
    vim.insert_text_at_cursor(&mut ctx, "a");
    vim.handle_key(&mut ctx, Key::enter());
    vim.insert_text_at_cursor(&mut ctx, "b");
    let joined = buf.0.get().join(" ");
    assert_eq!(joined, "a b");
}

/// `LinesBuf` meets the edit contract, and the engine runs on it.
#[test]
fn lines_buf_meets_engine_contract() {
    let mut buf = LinesBuf(SharedLines::default());
    buffer_edit_contract(&mut buf).unwrap();
    let mut host = EditHost::new();
    engine_smoke_contract(&mut buf, &mut host).unwrap();
}

/// The read contract holds of multi-byte and empty lines, too.
#[test]
fn lines_buf_read_contract_prefilled() {
    let mut storage = SharedLines::default();
    storage.set(vec![
        "alpha".to_string(),
        "beta 中文".to_string(),
        String::new(),
        "尾行".to_string(),
    ]);
    let buf = LinesBuf(storage);
    buffer_read_contract(&buf).unwrap();
}
