//! Whole sessions in an editor pane: commands, their undo steps, what they
//! report, and what the pane shows.
use gpui_vim::buffer::VimBuffer;
use gpui_vim::editor::Editor;
use gpui_vim::key::{parse_key_sequence, Key, Modifiers};
use gpui_vim::keymap::ModeClass;
use gpui_vim::mode::{Mode, VisualKind};
use gpui_vim::state::{Ctx, KeyResult};

fn press_key(e: &mut Editor, key: Key) -> KeyResult {
    let typed = key.printable_char();
    let mut ctx = Ctx { buf: &mut e.buffer, host: &mut e.host };
    let result = e.vim.handle_key(&mut ctx, key);
    if let (KeyResult::Unknown, Some(c)) = (result, typed) {
        e.vim.record_typed_text(&c.to_string());
        e.vim.insert_text_at_cursor(&mut ctx, &c.to_string());
    }
    result
}

fn press(e: &mut Editor, keys: &str) {
    for key in parse_key_sequence(keys) {
        press_key(e, key);
    }
}

/// The text after the keys.
fn run(text: &str, keys: &str) -> String {
    let mut e = Editor::new(text);
    press(&mut e, keys);
    e.text()
}

/// The status after the keys.
fn status(text: &str, keys: &str) -> Option<String> {
    let mut e = Editor::new(text);
    press(&mut e, keys);
    e.take_host_effects();
    e.status_message
}

// ---- undo --------------------------------------------------------------------------

#[test]
fn one_undo_takes_back_an_insert_session() {
    let mut e = Editor::new("one two\n");
    press(&mut e, "cwONE and<BS><BS>D<Esc>");
    assert_eq!(e.text(), "ONE aD two\n");
    assert_eq!(e.host.undo_depth(), 1);
    press(&mut e, "u");
    assert_eq!(e.text(), "one two\n");
    press(&mut e, "<C-r>");
    assert_eq!(e.text(), "ONE aD two\n");
}

#[test]
fn one_undo_takes_back_a_command() {
    for keys in ["3dd", "d2w", ">2j", "gUU", "J", "x", "~", "rz", "o<Esc>", "vjd", "<C-v>jd", "ggVGJ"] {
        let mut e = Editor::new("one two\nthree four\nfive\n");
        press(&mut e, keys);
        assert_eq!(e.host.undo_depth(), 1, "{}", keys);
        press(&mut e, "u");
        assert_eq!(e.text(), "one two\nthree four\nfive\n", "{}", keys);
    }
}

#[test]
fn block_insert_is_one_step() {
    let mut e = Editor::new("ab\ncd\nef\n");
    press(&mut e, "<C-v>jjIx<Esc>");
    assert_eq!(e.text(), "xab\nxcd\nxef\n");
    press(&mut e, "u");
    assert_eq!(e.text(), "ab\ncd\nef\n");
}

#[test]
fn substitution_over_lines_is_one_step() {
    let mut e = Editor::new("foo\nboo\n");
    press(&mut e, ":%s/o/0/g<CR>");
    assert_eq!(e.text(), "f00\nb00\n");
    assert_eq!(e.host.undo_depth(), 1);
    press(&mut e, "u");
    assert_eq!(e.text(), "foo\nboo\n");
}

#[test]
fn undo_stack_keeps_two_hundred_steps() {
    let mut e = Editor::new(&"x".repeat(210));
    for _ in 0..205 {
        press(&mut e, "x");
    }
    assert_eq!(e.host.undo_depth(), 200);
    press(&mut e, "250u");
    assert_eq!(e.text().len(), 205);
}

// ---- what commands report ----------------------------------------------------------

#[test]
fn substitution_counts() {
    let said = |text: &str, keys: &str| status(text, keys).unwrap();
    assert_eq!(said("foo\nboo\n", ":%s/o/0/g<CR>"), "4 substitutions on 2 lines");
    assert_eq!(said("foo\nboo\n", ":%s/o/0/<CR>"), "2 substitutions on 2 lines");
    assert_eq!(said("foo\nboo\n", ":s/f/g/<CR>"), "1 substitution on 1 line");
}

#[test]
fn every_error_has_its_message() {
    let said = |keys: &str| status("abc", keys).unwrap();
    assert_eq!(said(":s/zz/x/<CR>"), "E486: Pattern not found: zz");
    assert_eq!(said(":s//x/<CR>"), "E35: No previous regular expression");
    assert_eq!(said(":'as/a/b/<CR>"), "E20: Mark not set");
    assert_eq!(said(":set nosuch<CR>"), "E518: Unknown option: nosuch");
    assert_eq!(said(":frobnicate<CR>"), "E492: Not an editor command: frobnicate");
    assert_eq!(said("<C-a>"), "E18: Unexpected end of file");
    assert_eq!(said("g;"), "E664: changelist is empty");
    assert_eq!(status("abc def", "x5g;").unwrap(), "E662: At start of changelist");
}

#[test]
fn pattern_that_does_not_compile_changes_nothing() {
    let mut e = Editor::new("a(b\n");
    press(&mut e, ":s/(/x/<CR>");
    e.take_host_effects();
    assert_eq!(e.text(), "a(b\n");
    assert_eq!(e.status_message, None);
}

#[test]
fn save_reports_size() {
    let mut e = Editor::new("ab\ncd\n");
    press(&mut e, ":w<CR>");
    assert!(!e.take_host_effects());
    assert_eq!(
        e.status_message.as_deref(),
        Some("\"untitled\" 2L, 6B written (demo: not persisted)")
    );
    press(&mut e, ":q<CR>");
    assert!(e.take_host_effects());
    assert!(!e.take_host_effects());
    e.save();
    assert_eq!(
        e.status_message.as_deref(),
        Some("\"untitled\" 2L, 6B written (demo: not persisted)")
    );
}

// ---- patterns, case and columns ----------------------------------------------------

#[test]
fn patterns_are_regular_expressions() {
    let mut e = Editor::new("abc axc a.c\n");
    press(&mut e, "/a[.]c<CR>");
    assert_eq!(e.vim.cursor_offset(), 8);
    press(&mut e, "/a.c<CR>");
    assert_eq!(e.vim.cursor_offset(), 0);
    assert_eq!(e.host.highlights, vec![0..3, 4..7, 8..11]);
    assert_eq!(e.host.current_highlight, Some(0..3));
}

#[test]
fn case_of_the_pattern_decides() {
    let mut e = Editor::new("abc ABC\n");
    press(&mut e, ":set ignorecase smartcase<CR>/abc<CR>");
    assert_eq!(e.vim.cursor_offset(), 4);
    press(&mut e, "gg/ABC<CR>n");
    assert_eq!(e.host.highlights, vec![4..7]);
}

#[test]
fn replacement_expands_groups() {
    assert_eq!(run("aab\n", ":s/(a+)(b)/$2-$1/<CR>"), "b-aa\n");
    assert_eq!(run("a1 b2\n", r":s/([a-z])(\d)/$2$1/g<CR>"), "1a 2b\n");
}

#[test]
fn case_operators_use_full_mappings() {
    assert_eq!(run("straße\n", "gUU"), "STRASSE\n");
    assert_eq!(run("ÀÉ x\n", "guu"), "àé x\n");
    assert_eq!(run("aBc\n", "g~~"), "AbC\n");
}

#[test]
fn columns_count_wide_characters() {
    let mut e = Editor::new("中文字\nabcdef\n");
    press(&mut e, "ljj");
    assert_eq!(e.line_col(), (2, 2));
    press(&mut e, "4|");
    assert_eq!(e.line_col(), (2, 3));
    press(&mut e, "k");
    assert_eq!(e.line_col(), (1, 3));
}

#[test]
fn star_searches_whole_words() {
    let mut e = Editor::new("foo foobar foo\n");
    press(&mut e, "*");
    assert_eq!(e.vim.cursor_offset(), 11);
    assert_eq!(e.host.highlights, vec![0..3, 11..14]);
    press(&mut e, "#");
    assert_eq!(e.vim.cursor_offset(), 0);
}

// ---- laws on chosen values ---------------------------------------------------------

#[test]
fn next_and_previous_match_take_each_other_back() {
    let mut e = Editor::new("x1 x2 x3\n");
    press(&mut e, "/x<CR>");
    let at = e.vim.cursor_offset();
    press(&mut e, "nnN");
    let one_on = e.vim.cursor_offset();
    press(&mut e, "N");
    assert_eq!(e.vim.cursor_offset(), at);
    assert_ne!(one_on, at);
    press(&mut e, "nnn");
    assert_eq!(e.vim.cursor_offset(), at);
}

#[test]
fn matches_follow_edits() {
    let mut e = Editor::new("ax bx\n");
    press(&mut e, "/x<CR>");
    assert_eq!(e.vim.cursor_offset(), 1);
    press(&mut e, "0x");
    assert_eq!(e.host.highlights, vec![0..1, 3..4]);
    press(&mut e, "n");
    assert_eq!(e.vim.cursor_offset(), 3);
    press(&mut e, "u");
    assert_eq!(e.host.highlights, vec![1..2, 4..5]);
}

#[test]
fn changes_are_listed() {
    let mut e = Editor::new("abc\ndef\nghi\n");
    press(&mut e, "xjjx");
    press(&mut e, "kg;");
    assert_eq!(e.line_col(), (1, 0));
    press(&mut e, "g,");
    assert_eq!(e.line_col(), (3, 0));
    press(&mut e, "g,");
    e.take_host_effects();
    assert_eq!(e.status_message.as_deref(), Some("E662: At start of changelist"));
    assert_eq!(e.line_col(), (3, 0));
}

#[test]
fn selection_comes_back() {
    let mut e = Editor::new("hello world\n");
    press(&mut e, "wvll<Esc>0");
    assert_eq!(e.vim.mode(), Mode::Normal);
    press(&mut e, "gv");
    assert_eq!(e.vim.mode(), Mode::Visual { kind: VisualKind::Char });
    assert_eq!(e.selection_span(), Some((6..9, false)));
    press(&mut e, "o");
    assert_eq!(e.vim.cursor_offset(), 6);
    press(&mut e, "o");
    assert_eq!(e.vim.cursor_offset(), 8);
    assert_eq!(e.selection_span(), Some((6..9, false)));
}

#[test]
fn dot_repeats_the_last_change() {
    assert_eq!(run("one two three\n", "dw."), "three\n");
    assert_eq!(run("aa\nbb\n", "Axy<Esc>j."), "aaxy\nbbxy\n");
    assert_eq!(run("abcdef\n", "x3."), "ef\n");
}

#[test]
fn macro_plays_what_was_recorded() {
    assert_eq!(run("a\nb\nc\n", "qqA!<Esc>jq@q@@"), "a!\nb!\nc!\n");
    assert_eq!(run("1\n2\n3\n4\n", "qaA.<Esc>jq2@a"), "1.\n2.\n3.\n4\n");
}

#[test]
fn typed_characters_are_left_to_the_host() {
    let mut e = Editor::new("ab\n");
    press(&mut e, "i");
    let mut ctx = Ctx { buf: &mut e.buffer, host: &mut e.host };
    assert_eq!(e.vim.handle_key(&mut ctx, Key::char('x')), KeyResult::Unknown);
    assert_eq!(e.text(), "ab\n");
    assert_eq!(e.vim.take_pending_unknown_char(), Some('x'));
}

#[test]
fn chords_pass_through() {
    let mut e = Editor::new("ab\n");
    let cmd = |c: char| Key {
        modifiers: Modifiers { platform: true, ..Modifiers::none() },
        ..Key::char(c)
    };
    assert_eq!(press_key(&mut e, cmd('x')), KeyResult::Unknown);
    press(&mut e, "d");
    assert_eq!(press_key(&mut e, cmd('d')), KeyResult::Unknown);
    press(&mut e, "d");
    assert_eq!(e.text(), "");
}

#[test]
fn spelling_of_a_key_makes_no_difference() {
    let mut e = Editor::new("ab cd\n");
    let shifted = Key {
        modifiers: Modifiers { shift: true, ..Modifiers::none() },
        ..Key::char('W')
    };
    press_key(&mut e, shifted);
    assert_eq!(e.vim.cursor_offset(), 3);
    e.vim.keymaps_mut().map_str(ModeClass::Normal, "<Space>x", "0");
    press_key(&mut e, Key::named("space"));
    press(&mut e, "x");
    assert_eq!(e.vim.cursor_offset(), 0);
}

#[test]
fn registers_keep_what_they_are_given() {
    let mut e = Editor::new("one\ntwo\nthree\n");
    press(&mut e, "\"ayyj\"Ayy");
    let a = e.vim.registers.get('a').unwrap();
    assert_eq!(a.text, "one\ntwo\n");
    press(&mut e, "\"_dd");
    assert_eq!(e.vim.registers.get('1').map(|r| r.text.clone()), None);
    press(&mut e, "dd");
    assert_eq!(e.vim.registers.get('1').unwrap().text, "three\n");
    assert_eq!(e.vim.registers.get('0').map(|r| r.text.clone()), None);
    press(&mut e, "yy");
    assert_eq!(e.vim.registers.get('0').unwrap().text, "one\n");
}

#[test]
fn deletions_move_along_the_ring() {
    let mut e = Editor::new("1\n2\n3\n4\n5\n6\n7\n8\n9\n10\n11\n");
    for _ in 0..10 {
        press(&mut e, "dd");
    }
    assert_eq!(e.vim.registers.get('1').unwrap().text, "10\n");
    assert_eq!(e.vim.registers.get('9').unwrap().text, "2\n");
}

#[test]
fn clipboard_register_goes_to_the_host() {
    let mut e = Editor::new("one\ntwo\n");
    press(&mut e, "\"+yy");
    assert_eq!(e.take_copied().as_deref(), Some("one\n"));
    assert_eq!(e.take_copied(), None);
    e.host.clipboard = Some("zzz".to_string());
    press(&mut e, "\"+P");
    assert_eq!(e.text(), "zzzone\ntwo\n");
}

#[test]
fn marks_follow_the_text() {
    let mut e = Editor::new("one\ntwo\nthree\n");
    press(&mut e, "jmaggO<Esc>");
    assert_eq!(e.vim.marks.get('a'), Some(5));
    press(&mut e, "dd'a");
    assert_eq!(e.line_col(), (2, 0));
    press(&mut e, "kdd`a");
    assert_eq!(e.line_col(), (1, 0));
}

#[test]
fn jumps_go_back_and_forth() {
    let mut e = Editor::new("a\nb\nc\nd\n");
    press(&mut e, "jG");
    assert_eq!(e.line_col().0, 4);
    press(&mut e, "<C-o>");
    assert_eq!(e.line_col().0, 2);
    press(&mut e, "<C-i>");
    assert_eq!(e.line_col().0, 4);
}

#[test]
fn history_goes_there_and_back() {
    let mut e = Editor::new("a\n");
    press(&mut e, ":set nu<CR>:set nornu<CR>:");
    press(&mut e, "<Up><Up>");
    assert_eq!(e.mode_label(), ":set nu");
    press(&mut e, "<Down>");
    assert_eq!(e.mode_label(), ":set nornu");
}

#[test]
fn change_word_is_change_to_its_end() {
    assert_eq!(run("one   two\n", "cwX<Esc>"), "X   two\n");
    assert_eq!(run("one   two\n", "ceX<Esc>"), "X   two\n");
}

#[test]
fn delete_word_stays_in_its_line() {
    assert_eq!(run("one\ntwo\n", "dw"), "\ntwo\n");
    assert_eq!(run("a b  \nc\n", "wdw"), "a \nc\n");
}

#[test]
fn formatted_lines_fit() {
    let mut e = Editor::new("aaa bbb ccc ddd eee\n");
    e.vim.options.textwidth = 8;
    press(&mut e, "gqq");
    assert_eq!(e.text(), "aaa bbb\nccc ddd\neee\n");
}

#[test]
fn mapping_is_found_and_its_prefix_waits() {
    let mut e = Editor::new("ab\n");
    e.vim.keymaps_mut().map_str(ModeClass::Insert, "jk", "<Esc>");
    press(&mut e, "ij");
    assert_eq!(e.vim.mode(), Mode::Insert);
    assert_eq!(e.text(), "ab\n");
    press(&mut e, "k");
    assert_eq!(e.vim.mode(), Mode::Normal);
    assert_eq!(e.text(), "ab\n");
}

#[test]
fn endless_mapping_stops() {
    let mut e = Editor::new("ab\n");
    e.vim.keymaps_mut().map_str(ModeClass::Normal, "a", "b");
    e.vim.keymaps_mut().map_str(ModeClass::Normal, "b", "a");
    press(&mut e, "a");
    assert!(e.vim.is_idle());
    press(&mut e, "x");
    assert_eq!(e.text(), "b\n");
}

#[test]
fn numbers_count_up_and_down() {
    assert_eq!(run("a 9 b\n", "<C-a>"), "a 10 b\n");
    assert_eq!(run("a 9 b\n", "5<C-a>5<C-x>"), "a 9 b\n");
    assert_eq!(run("-1\n", "2<C-a>"), "1\n");
    assert_eq!(run("0\n", "<C-x>"), "-1\n");
    assert_eq!(run("9223372036854775807\n", "<C-a>"), "-9223372036854775808\n");
}

#[test]
fn replace_mode_gives_back_what_it_covered() {
    assert_eq!(run("abcd\n", "RXY<BS><Esc>"), "Xbcd\n");
    assert_eq!(run("ab\n", "RXYZ<BS><BS><Esc>"), "Xb\n");
}

#[test]
fn indent_and_back() {
    let mut e = Editor::new("a\n  b\n");
    let unit = e.vim.options.shiftwidth;
    press(&mut e, ">j");
    assert_eq!(e.text(), format!("{}a\n{}  b\n", " ".repeat(unit), " ".repeat(unit)));
    press(&mut e, "<lt>j");
    assert_eq!(e.text(), "a\n  b\n");
}

// ---- the pane ----------------------------------------------------------------------

#[test]
fn pane_shows_its_mode() {
    let mut e = Editor::new("abc\n");
    assert_eq!(e.mode_label(), "NORMAL");
    press(&mut e, "i");
    assert_eq!(e.mode_label(), "-- INSERT --");
    press(&mut e, "<Esc>R");
    assert_eq!(e.mode_label(), "-- REPLACE --");
    press(&mut e, "<Esc>V");
    assert_eq!(e.mode_label(), "-- V-LINE --");
    press(&mut e, "<Esc>/ab");
    assert_eq!(e.mode_label(), "SEARCH /ab");
    press(&mut e, "<Esc>:se");
    assert_eq!(e.mode_label(), ":se");
}

#[test]
fn gutter_numbers_lines() {
    let mut e = Editor::new("a\nb\nc\n");
    press(&mut e, "j");
    assert_eq!(e.gutter_text(0), "   1 ");
    assert_eq!(e.gutter_text(2), "   3 ");
    assert_eq!(e.gutter_text(3), "   ~ ");
    e.vim.options.relativenumber = true;
    assert_eq!(e.gutter_text(0), "   1 ");
    assert_eq!(e.gutter_text(1), "   2 ");
    assert_eq!(e.gutter_text(2), "   1 ");
}

#[test]
fn pane_copies_and_pastes() {
    let mut e = Editor::new("héllo\n");
    assert_eq!(e.copy(), None);
    press(&mut e, "vl");
    assert_eq!(e.copy().as_deref(), Some("hé"));
    assert_eq!(e.status_message.as_deref(), Some("copied 3 bytes"));
    press(&mut e, "<Esc>i");
    e.paste("xy");
    assert_eq!(e.text(), "xyhéllo\n");
}

#[test]
fn mouse_places_the_cursor_and_selects() {
    let mut e = Editor::new("hello\nworld\n");
    let at = e.offset_at_column(1, 3);
    assert_eq!(at, 9);
    assert_eq!(e.offset_at_index(0, 99), 5);
    assert_eq!(e.offset_at_index(9, 0), 6);
    e.mouse_down(at);
    assert_eq!(e.line_col(), (2, 3));
    e.mouse_drag(e.offset_at_column(1, 1));
    e.mouse_up();
    assert_eq!(e.selection_span(), Some((7..10, false)));
    assert!(!e.dragging);
}

#[test]
fn pane_asks_for_lines_it_does_not_show() {
    let mut e = Editor::new(&"x\n".repeat(50));
    press(&mut e, "G");
    assert_eq!(e.take_scroll(0, 24), Some(49));
    assert_eq!(e.take_scroll(0, 24), None);
    press(&mut e, "gg");
    assert_eq!(e.take_scroll(0, 24), None);
}

#[test]
fn composition_is_replaced_by_what_is_committed() {
    let mut e = Editor::new("ab\n");
    press(&mut e, "a");
    e.replace_and_mark_text_in_range("ni");
    assert_eq!(e.text(), "anib\n");
    assert_eq!(e.marked_text_range(), Some(1..3));
    e.replace_and_mark_text_in_range("nihao");
    assert_eq!(e.text(), "anihaob\n");
    e.replace_text_in_range(None, "你好");
    assert_eq!(e.text(), "a你好b\n");
    assert_eq!(e.marked_text_range(), None);
    assert_eq!(e.vim.cursor_offset(), 7);
    assert_eq!(e.selected_text_range(), 3..3);
    assert_eq!(e.text_for_range(1..3).0, "你好");
    press(&mut e, "<Esc>u");
    assert_eq!(e.text(), "ab\n");
}

#[test]
fn composition_that_is_given_up_leaves_no_trace() {
    let mut e = Editor::new("ab\n");
    press(&mut e, "a");
    e.replace_and_mark_text_in_range("ni");
    e.unmark_text();
    assert_eq!(e.text(), "ab\n");
    assert_eq!(e.marked_text_range(), None);
    e.replace_and_mark_text_in_range("ni");
    e.replace_and_mark_text_in_range("");
    assert_eq!(e.text(), "ab\n");
    assert_eq!(e.marked_text_range(), None);
    press(&mut e, "<Esc>");
    e.replace_and_mark_text_in_range("zz");
    assert_eq!(e.text(), "ab\n");
}

#[test]
fn tabs_are_switched_by_mappings() {
    let mut e = Editor::new("a\n");
    e.register_default_mappings();
    press(&mut e, "gt");
    assert_eq!(e.host.pending_tab_cycle, Some(true));
    press(&mut e, "gT");
    assert_eq!(e.host.pending_tab_cycle, Some(false));
    press(&mut e, ":action some.thing<CR>");
    assert_eq!(e.host.pending_action.as_deref(), Some("some.thing"));
}

#[test]
fn pending_input_is_shown() {
    let mut e = Editor::new("a b c d\n");
    press(&mut e, "\"a3d");
    assert_eq!(e.vim.showcmd(), "\"a3d");
    assert!(!e.vim.is_idle());
    press(&mut e, "<Esc>");
    assert_eq!(e.vim.showcmd(), "");
    assert!(e.vim.is_idle());
}

#[test]
fn pane_shows_lines_and_what_is_behind_them() {
    let mut e = Editor::new("ab\ncd");
    assert_eq!(e.lines_listed(), 24);
    press(&mut e, "j");
    let first = e.shown_line(0);
    assert_eq!((first.text.as_str(), first.in_text, first.current), ("ab", true, false));
    assert!(e.shown_line(1).current);
    let behind = e.shown_line(2);
    assert_eq!((behind.text.as_str(), behind.in_text, behind.current), ("~", false, false));
    assert_eq!(Editor::new(&"x\n".repeat(30)).lines_listed(), 30);
}

#[test]
fn rope_lines_break_as_ropey_breaks_them() {
    let e = Editor::new("a\r\nb\u{85}c\u{2028}d");
    assert_eq!(e.buffer.line_count(), 4);
    assert_eq!(e.buffer.line_breaks(), 3);
    assert_eq!(e.buffer.line_range(1), 3..6);
    assert_eq!(e.buffer.line_range(2), 6..10);
    assert_eq!(e.buffer.offset_to_line(6), 2);
}

// ---- motions that come back --------------------------------------------------------

#[test]
fn matching_bracket_and_back() {
    let mut e = Editor::new("f(a[1], {b})\nx\n");
    for (from, to) in [("0f(", 11), ("0f[", 5), ("0f{", 10)] {
        press(&mut e, from);
        let at = e.vim.cursor_offset();
        press(&mut e, "%");
        assert_eq!(e.vim.cursor_offset(), to);
        press(&mut e, "%");
        assert_eq!(e.vim.cursor_offset(), at);
    }
    press(&mut e, "0j%");
    assert_eq!(e.vim.cursor_offset(), 13);
}

#[test]
fn down_and_up_keep_the_column() {
    let mut e = Editor::new("abcdef\nx\n你好吗\nabcdef\n");
    press(&mut e, "4l");
    assert_eq!(e.vim.cursor_offset(), 4);
    press(&mut e, "j");
    assert_eq!(e.vim.cursor_offset(), 8);
    press(&mut e, "j");
    assert_eq!(e.vim.cursor_offset(), 15);
    press(&mut e, "j");
    assert_eq!(e.vim.cursor_offset(), 23);
    press(&mut e, "3k");
    assert_eq!(e.vim.cursor_offset(), 4);
}

#[test]
fn exclusive_motion_stops_before_the_first_column() {
    assert_eq!(run("ab cd\nef\n\ngh\n", "wd}"), "ab \n\ngh\n");
    assert_eq!(run("ab cd\nef\n\ngh\n", "d}"), "\ngh\n");
}

#[test]
fn commands_that_keep_to_their_line() {
    let mut e = Editor::new("ab\n\n  cd\n");
    press(&mut e, "99l");
    assert_eq!(e.vim.cursor_offset(), 1);
    press(&mut e, "w");
    assert_eq!(e.vim.cursor_offset(), 3);
    press(&mut e, "w");
    assert_eq!(e.vim.cursor_offset(), 6);
    press(&mut e, "b");
    assert_eq!(e.vim.cursor_offset(), 3);
    assert_eq!(run("abc\nd\n", "l5rx"), "abc\nd\n");
    assert_eq!(run("abc\nd\n", "l2rx"), "axx\nd\n");
    assert_eq!(run("ab\n  cd\n", "jA<C-w><C-w><C-w><Esc>"), "ab\n\n");
}

#[test]
fn no_word_end_before_the_cursor() {
    let mut e = Editor::new("foo bar\n");
    press(&mut e, "lge");
    assert_eq!(e.vim.cursor_offset(), 1);
    press(&mut e, "wge");
    assert_eq!(e.vim.cursor_offset(), 2);
    press(&mut e, "ge");
    assert_eq!(e.vim.cursor_offset(), 2);
    press(&mut e, "$2ge");
    assert_eq!(e.vim.cursor_offset(), 2);
}

#[test]
fn left_shift_takes_back_a_right_shift() {
    for set in ["", ":set expandtab<CR>", ":set noexpandtab<CR>", ":set shiftwidth=3<CR>"] {
        for text in ["ab\n", " ab\n", "\tab\ncd\n", "a\r\nb\u{85}c\n"] {
            let mut e = Editor::new(text);
            press(&mut e, set);
            press(&mut e, ">>");
            assert_ne!(e.text(), text);
            press(&mut e, "<lt><lt>");
            assert_eq!(e.text(), text, "{:?}", set);
        }
    }
}

#[test]
fn chords_leave_the_host_alone() {
    let mut e = Editor::new("ab\n");
    press(&mut e, "x");
    let depth = e.host.undo_depth();
    let chord = Key { modifiers: Modifiers { platform: true, ..Modifiers::none() }, ..Key::char('u') };
    assert_eq!(press_key(&mut e, chord), KeyResult::Unknown);
    assert_eq!(e.host.undo_depth(), depth);
    assert_eq!(e.host.pending_status, None);
    assert_eq!(e.text(), "b\n");
}

// ---- elements ----------------------------------------------------------------------

#[test]
fn elements_and_what_is_between_their_tags() {
    let text = "<a>x<b>y</b></a>";
    assert_eq!(run(text, "7ldit"), "<a>x<b></b></a>");
    assert_eq!(run(text, "7ldat"), "<a>x</a>");
    assert_eq!(run(text, "3ldit"), "<a></a>");
    // on the `<` of an opening tag the element around it is meant
    assert_eq!(run(text, "4ldit"), "<a></a>");
    assert_eq!(run(text, "dat"), text);
    assert_eq!(run("<a></a>", "ldit"), "<a></a>");
    assert_eq!(run("<a></a>", "ldat"), "");
}

#[test]
fn tags_that_end_in_a_slash_close_their_element() {
    assert_eq!(run("<b>x<b />y</b>", "3ldit"), "<b><b />y</b>");
    assert_eq!(run("<b>x<b />y</b>", "3ldat"), "y</b>");
    assert_eq!(run("<b>x<c />y</b>", "3ldit"), "<b></b>");
}

// ---- highlights that were cleared --------------------------------------------------

#[test]
fn editing_revives_no_cleared_highlights() {
    let mut e = Editor::new("ax bx\n");
    press(&mut e, "/x<CR>");
    assert_eq!(e.host.highlights, vec![1..2, 4..5]);
    press(&mut e, ":noh<CR>0x");
    assert_eq!(e.text(), "x bx\n");
    assert!(e.host.highlights.is_empty());
    press(&mut e, "ix<Esc>u");
    assert!(e.host.highlights.is_empty());
    press(&mut e, "n");
    assert_eq!(e.host.highlights, vec![0..1, 3..4]);
    press(&mut e, "<Esc>$x");
    assert!(e.host.highlights.is_empty());
}

#[test]
fn highlights_without_a_match_come_back() {
    let mut e = Editor::new("ax\n");
    press(&mut e, "/x<CR>x");
    assert_eq!(e.text(), "a\n");
    assert!(e.host.highlights.is_empty());
    press(&mut e, "Ax<Esc>");
    assert_eq!(e.host.highlights, vec![1..2]);
}

// ---- saving ------------------------------------------------------------------------

#[test]
fn save_is_answered_when_it_is_given() {
    let mut e = Editor::new("ab\ncd");
    e.vim.keymaps_mut().map_str(ModeClass::Normal, "Q", ":w<CR>x");
    e.vim.keymaps_mut().map_str(ModeClass::Normal, "M", ":w<CR>:frobnicate<CR>");
    press(&mut e, "Q");
    e.take_host_effects();
    assert_eq!(e.text(), "b\ncd");
    assert_eq!(
        e.status_message.as_deref(),
        Some("\"untitled\" 1L, 5B written (demo: not persisted)")
    );
    press(&mut e, "M");
    e.take_host_effects();
    assert_eq!(
        e.status_message.as_deref(),
        Some("E492: Not an editor command: frobnicate")
    );
}

#[test]
fn escaped_text_matches_itself() {
    for c in (0u32..0x300).filter_map(char::from_u32) {
        let text = format!("a{}b", c);
        assert_eq!(gpui_vim::search::escape(&text), regex::escape(&text));
    }
    assert_eq!(gpui_vim::search::escape("a.b*(中)"), "a\\.b\\*\\(中\\)");
}
