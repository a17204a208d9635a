//! Flattened documents and the pager over them.
use gpui_vim::buffer::VimBuffer;
use gpui_vim::flat::{selection_spans, FlatDoc, Group};
use gpui_vim::key::Key;
use gpui_vim::pager::{Pager, PagerBuf};
use gpui_vim::state::KeyResult;
use gpui_vim::tck::buffer_read_contract;

/// Simple stand-in for a host's piece-style enum.
#[derive(Clone, Copy, Debug, PartialEq, Eq)]
enum Tag {
    A,
    B,
}

/// Pieces: [0..7 "你好 " A] · raw "\n" · [8..10 "ab" B] [10..13 " cd" A]
fn doc() -> FlatDoc<Tag> {
    let mut d = FlatDoc::new();
    d.push_group(vec![("你好 ".into(), Tag::A)]);
    d.push_raw("\n");
    d.push_group(vec![("ab".into(), Tag::B), (" cd".into(), Tag::A)]);
    d
}

#[test]
fn builder_offsets_match_text() {
    let d = doc();
    assert_eq!(d.text, "你好 \nab cd");
    assert_eq!(d.groups.len(), 2);
    for g in &d.groups {
        let joined: String = g.pieces.iter().map(|p| p.text.as_str()).collect();
        assert_eq!(
            &d.text[g.flat.clone()],
            &joined,
            "group text must align with canonical text"
        );
    }
    assert_eq!(d.groups[1].pieces[0].flat, 8..10);
    assert_eq!(d.groups[1].pieces[1].flat, 10..13);
    assert_eq!(d.groups[1].pieces[0].style, Tag::B);
}

#[test]
fn open_close_group_covers_internal_separators() {
    // Code-block shape: one group, per-line pieces joined by raw "\n".
    let mut d = FlatDoc::new();
    d.open_group();
    d.push_piece("l1".into(), Tag::B);
    d.push_raw("\n");
    d.push_piece("l2".into(), Tag::B);
    d.close_group();
    assert_eq!(d.text, "l1\nl2");
    assert_eq!(d.groups.len(), 1);
    assert_eq!(
        d.groups[0].flat,
        0..5,
        "group covers intra-group separators"
    );
    assert_eq!(d.groups[0].pieces[1].flat, 3..5);

    // Empty open/close and empty push_group produce no group.
    let mut d = FlatDoc::<Tag>::new();
    d.open_group();
    d.close_group();
    d.push_group(vec![]);
    d.push_group(vec![("".into(), Tag::A)]);
    assert!(d.groups.is_empty());
    assert_eq!(d.text, "");
}

#[test]
fn empty_document() {
    let buf = PagerBuf::new(String::new());
    assert_eq!(buf.len(), 0);
    assert_eq!(buf.line_count(), 1, "an empty buffer still has one line");
    assert_eq!(buf.line_range(0), 0..0);
    assert_eq!(
        buf.line_range(9),
        0..0,
        "out-of-range line clamps to empty tail"
    );
    assert_eq!(buf.char_at(0), None);
    assert_eq!(buf.prev_char_offset(0), None);
    assert_eq!(buf.offset_to_line(0), 0);
    assert_eq!(buf.slice(0..0), "");

    let d = FlatDoc::<Tag>::default();
    assert!(d.groups.is_empty());
    let g = Group::<Tag> {
        pieces: vec![],
        flat: 0..0,
    };
    assert_eq!(selection_spans(&g, 0..0, false), None);
}

#[test]
fn line_accounting_including_last_line_without_newline() {
    let buf = PagerBuf::new("ab\ncd\n".into());
    assert_eq!(
        buf.line_count(),
        3,
        "trailing newline opens an empty last line"
    );
    // a range holds the line's newline, except the last one
    assert_eq!(buf.line_range(0), 0..3);
    assert_eq!(buf.line_range(1), 3..6);
    assert_eq!(buf.line_range(2), 6..6);
    assert_eq!(buf.char_at(2), Some('\n'));
    assert_eq!(buf.prev_char_offset(3), Some(2));
    assert_eq!(buf.offset_to_line(2), 0);
    assert_eq!(buf.offset_to_line(3), 1);
    assert_eq!(buf.offset_to_line(6), 2);
    assert_eq!(buf.slice(1..4), "b\nc");

    // Inherent offset-based helpers (used by line-visual expansion).
    assert_eq!(buf.line_start(4), 3);
    assert_eq!(buf.line_end(4), 5);
    assert_eq!(buf.line_start(6), 6);
    assert_eq!(buf.line_end(6), 6);

    // Final line without trailing newline ends at text end.
    let buf = PagerBuf::new("l1\nl2".into());
    assert_eq!(buf.line_count(), 2);
    assert_eq!(buf.line_range(1), 3..5);
    assert_eq!(buf.line_end(3), 5);
    assert_eq!(buf.slice(3..5), "l2");
}

#[test]
fn utf8_multibyte_boundaries() {
    let buf = PagerBuf::new("中文x".into()); // boundaries 0, 3, 6, 7
    assert_eq!(buf.char_at(1), None, "no char starts mid-character");
    assert_eq!(buf.char_at(3), Some('文'));
    assert_eq!(
        buf.slice(1..2),
        "中",
        "slice floors/ceils to char boundaries"
    );
    assert_eq!(buf.slice(1..5), "中文");
    assert_eq!(buf.slice(0..7), "中文x");

    // A selection ending mid-character covers that character whole.
    let mut d = FlatDoc::new();
    d.push_group(vec![("中文".into(), Tag::A)]);
    let g = &d.groups[0];
    assert_eq!(selection_spans(g, 1..2, false), Some(vec![(0, 0..3)]));
    assert_eq!(selection_spans(g, 1..4, false), Some(vec![(0, 0..6)]));
    assert_eq!(selection_spans(g, 4..5, false), Some(vec![(0, 3..6)]));
}

#[test]
fn selection_spans_at_piece_boundaries() {
    let d = doc();
    let g = &d.groups[1]; // "ab" B | " cd" A, flat 8..13

    // Exactly one piece.
    assert_eq!(selection_spans(g, 8..10, false), Some(vec![(0, 0..2)]));
    // Across the internal piece boundary.
    assert_eq!(
        selection_spans(g, 8..13, false),
        Some(vec![(0, 0..2), (1, 0..3)]),
        "spans are in piece order"
    );
    // Selection starting in the separator before the group.
    assert_eq!(selection_spans(g, 7..9, false), Some(vec![(0, 0..1)]));
    // Zero-width selection at a piece boundary is empty.
    assert_eq!(selection_spans(g, 8..8, false), None);
    assert_eq!(selection_spans(g, 10..10, false), None);
    // Wholly before / after the group.
    assert_eq!(selection_spans(g, 0..7, false), None);
    assert_eq!(selection_spans(g, 13..15, false), None);

    // Linewise: overlapping pieces are covered in full, separator-only
    // pieces excluded.
    assert_eq!(
        selection_spans(g, 8..11, true),
        Some(vec![(0, 0..2), (1, 0..3)]),
    );
    assert_eq!(selection_spans(g, 0..8, true), None);
}

#[test]
fn visual_selection_end_to_end() {
    let d = doc();
    let mut pager = Pager::new(d.text.clone());
    assert_eq!(pager.selection(), None, "inactive pager has no selection");
    pager.set_cursor(8); // "ab" start
    pager.enter_visual(false);
    assert!(pager.active);
    pager.feed(Key::char('$')); // to end of line "ab cd"
    let (range, is_line) = pager.selection().expect("active visual has a selection");
    assert!(!is_line);
    assert_eq!(range, 8..13);
    assert_eq!(pager.selected_text().as_deref(), Some("ab cd"));
    // Both pieces of group 1 covered, in order, with styles reachable.
    let spans = pager.group_sel_spans(&d.groups[1]).expect("group covered");
    assert_eq!(spans, vec![(0, 0..2), (1, 0..3)]);
    // Separator between groups belongs to no piece.
    assert_eq!(pager.group_sel_spans(&d.groups[0]), None);

    pager.feed(Key::char('y'));
    assert_eq!(pager.take_clip().as_deref(), Some("ab cd"));
    assert!(!pager.active, "y exits visual mode");
    assert_eq!(pager.mode_label(), None);
}

#[test]
fn visual_line_and_last_line_without_newline() {
    // Linewise on the last line (which has no trailing newline): the
    // selection must cover the full line text.
    let mut pager = Pager::new("l1\nl2".into());
    pager.set_cursor(3);
    pager.enter_visual(true);
    assert!(pager.active);
    assert_eq!(pager.mode_label(), Some("V-LINE"));
    let (range, is_line) = pager.selection().expect("line selection");
    assert!(is_line);
    assert_eq!(range, 3..5, "linewise selection covers the full last line");
    assert_eq!(pager.selected_text().as_deref(), Some("l2"));

    // V + j from the first line: selection extends over both lines.
    let mut pager = Pager::new("l1\nl2".into());
    pager.set_cursor(0);
    pager.enter_visual(true);
    pager.feed(Key::char('j'));
    assert_eq!(pager.cursor_offset(), 3);
    let (range, is_line) = pager.selection().unwrap();
    assert!(is_line);
    assert_eq!(range, 0..5);

    // Charwise j lands on the same column of the next line and the
    // selection runs from the anchor char through the cursor char.
    let mut pager = Pager::new("l1\nl2".into());
    pager.set_cursor(0);
    pager.enter_visual(false);
    pager.feed(Key::char('j'));
    let (range, is_line) = pager.selection().unwrap();
    assert!(!is_line);
    assert_eq!(range, 0..4);
}

#[test]
fn empty_pager_is_inert() {
    let mut pager = Pager::new(String::new());
    assert_eq!(pager.buf_stats(), (0, 1));
    pager.set_cursor(99); // clamps to len
    assert_eq!(pager.cursor_offset(), 0);
    assert_eq!(pager.take_clip(), None);
    assert_eq!(pager.mode_label(), None);
    // `/` search works from normal mode even on an empty buffer.
    assert_eq!(pager.feed(Key::char('/')), KeyResult::Consumed);
    assert_eq!(pager.cmdline_prompt().as_deref(), Some("/"));
}

/// A pager only reads; edits have no effect on it.
#[test]
fn pager_buf_read_contract() {
    let buf = PagerBuf::new("alpha\nbeta 中文\n\n尾行\n".into());
    buffer_read_contract(&buf).unwrap();
    let buf = PagerBuf::new("中文 mix 👨‍👩‍👧".into());
    buffer_read_contract(&buf).unwrap();
    let buf = PagerBuf::new(String::new());
    buffer_read_contract(&buf).unwrap();
}
