//! The edit box, the layers of configuration, overlays and flat documents.
use gpui_vim::config::{parse, Setting};
use gpui_vim::dispatch::Keystroke;
use gpui_vim::edit::{display_width_before, VimEdit, VimEditEvent};
use gpui_vim::flat::{ceil_boundary, floor_boundary, FlatDoc, GroupCursor};
use gpui_vim::key::{Key, Modifiers};
use gpui_vim::keymap::ModeClass;
use gpui_vim::layers::{
    begin_layer, end_layers, expand_tilde, ActionPolicy, Layers, LoadedStats, Loading, PathBase,
};
use gpui_vim::lines::{offset_rc, rc_offset, LinesBuf, SharedLines};
use gpui_vim::mode::Mode;
use gpui_vim::options::Options;
use gpui_vim::overlay::{build_runs, char_range_at, CaretBlinker};
use gpui_vim::pager::{selected_char_count, Pager};
use gpui_vim::state::VimState;

fn stroke(key: &str) -> Keystroke {
    let typed = if key.chars().count() == 1 { Some(key.to_string()) } else { None };
    Keystroke { modifiers: Modifiers::none(), key: key.to_string(), key_char: typed, function: false }
}

fn press(e: &mut VimEdit, keys: &[&str]) {
    for key in keys {
        assert!(e.process_key(&stroke(key)).is_some());
    }
}

fn ctrl(key: &str) -> Keystroke {
    Keystroke { modifiers: Modifiers::ctrl(), key_char: None, ..stroke(key) }
}

// ---- the edit box ------------------------------------------------------------------

#[test]
fn box_types_undoes_and_redoes() {
    let mut e = VimEdit::new(false, false, "body");
    press(&mut e, &["i", "a", "b", "enter", "c", "escape"]);
    assert_eq!(e.text(), "ab\nc");
    assert_eq!(e.mode(), Mode::Normal);
    press(&mut e, &["u"]);
    assert_eq!(e.text(), "");
    e.process_key(&ctrl("r"));
    assert_eq!(e.text(), "ab\nc");
    press(&mut e, &["u", "u"]);
    assert_eq!(e.text(), "");
}

#[test]
fn box_of_one_line_stays_one_line() {
    let mut e = VimEdit::new(true, false, "subject");
    e.set_text("one\ntwo");
    assert_eq!(e.text(), "one two");
    press(&mut e, &["A", "enter", "x", "escape"]);
    assert_eq!(e.text(), "one two x");
    assert_eq!(e.buf.0.get().len(), 1);
}

#[test]
fn box_reports_what_happened() {
    let mut e = VimEdit::new(false, false, "body");
    e.set_text("abc");
    press(&mut e, &["x"]);
    assert!(e.modified);
    assert_eq!(e.drain_events(), vec![VimEditEvent::Changed]);
    assert_eq!(e.drain_events(), vec![]);
    press(&mut e, &[":", "w", "enter"]);
    assert_eq!(e.drain_events(), vec![VimEditEvent::Save]);
    press(&mut e, &[":", "q", "enter"]);
    assert_eq!(e.drain_events(), vec![VimEditEvent::Close]);
    press(&mut e, &[":", "z", "z", "enter"]);
    assert_eq!(
        e.drain_events(),
        vec![VimEditEvent::Status("E492: Not an editor command: zz".to_string())]
    );
}

#[test]
fn box_passes_chords_and_copies() {
    let mut e = VimEdit::new(false, false, "body");
    e.set_text("abc");
    let chord = Keystroke {
        modifiers: Modifiers { platform: true, ..Modifiers::none() },
        ..stroke("c")
    };
    assert!(e.process_key(&chord).is_none());
    assert!(e.process_key(&Keystroke { function: true, ..stroke("left") }).is_none());
    press(&mut e, &["\"", "+", "y"]);
    let effects = e.process_key(&stroke("y")).unwrap();
    assert_eq!(effects.clipboard.as_deref(), Some("abc"));
}

#[test]
fn box_leaves_u_inside_a_command_to_the_engine() {
    let mut e = VimEdit::new(false, false, "body");
    e.set_text("ABC");
    press(&mut e, &["g", "u", "u"]);
    assert_eq!(e.text(), "abc");
}

#[test]
fn box_splices_and_composes() {
    let mut e = VimEdit::new(false, false, "body");
    e.set_text("héllo");
    e.splice_range(2..3, "e");
    assert_eq!(e.text(), "hello");
    assert!(e.is_inserting());
    assert_eq!(e.cursor_offset(), 2);
    e.replace_and_mark_text_in_range("ni");
    assert_eq!(e.marked_text_range(), Some(2..4));
    e.replace_text_in_range(None, "你");
    assert_eq!(e.text(), "he你llo");
    assert_eq!(e.selected_text_range(), 3..3);
    assert_eq!(e.text_for_range(2..3), "你");
    e.replace_and_mark_text_in_range("x");
    e.unmark_text();
    assert_eq!(e.text(), "he你llo");
}

#[test]
fn box_hides_a_password() {
    let mut e = VimEdit::new(true, true, "password");
    e.set_text("héy");
    assert_eq!(e.shown_row(0).as_deref(), Some("•••"));
    assert_eq!(e.shown_row(1), None);
    e.set_password(false);
    assert_eq!(e.shown_row(0).as_deref(), Some("héy"));
}

#[test]
fn box_follows_the_mouse() {
    let mut e = VimEdit::new(false, false, "body");
    e.set_text("hello\nworld");
    assert_eq!(e.offset_at(1, 2), Some(8));
    assert_eq!(e.offset_at(9, 0), Some(6));
    e.mouse_down(Some(8));
    assert_eq!(e.cursor_offset(), 8);
    e.mouse_drag(Some(10));
    e.mouse_up();
    assert_eq!(e.selection_span(1), Some((2, 5)));
    assert_eq!(e.selection_span(0), None);
    assert_eq!(e.mode_label(), "VISUAL");
}

#[test]
fn box_paints_its_rows() {
    let mut e = VimEdit::new(false, false, "body");
    e.set_text("a中b\nab\nxb\n");
    assert_eq!(e.rows_to_paint(0, None), 0..4);
    assert_eq!(e.rows_to_paint(1, Some(1)), 1..3);
    assert_eq!(e.rows_to_paint(2, Some(9)), 2..4);
    assert_eq!(e.rows_to_paint(7, Some(9)), 4..4);
    e.host.highlights = vec![4..5, 7..8, 8..11];
    e.host.current_highlight = Some(7..8);
    assert_eq!(e.row_hits(0), vec![(2, 3, false)]);
    assert_eq!(e.row_hits(1), vec![(1, 2, true), (2, 3, false)]);
    assert_eq!(e.row_hits(2), vec![]);
    e.mouse_down(Some(1));
    e.mouse_up();
    assert!(e.row_caret(0, false).is_none());
    assert!(e.row_caret(1, true).is_none());
    let caret = e.row_caret(0, true).unwrap();
    assert_eq!((caret.col, caret.block, caret.under), (1, true, Some('中')));
    let single = VimEdit::new(true, false, "name");
    assert_eq!(single.rows_to_paint(3, Some(9)), 0..1);
}

#[test]
fn widths_count_wide_characters() {
    assert_eq!(display_width_before("中a文", 2), 3);
    assert_eq!(display_width_before("中a文", 99), 5);
    assert_eq!(display_width_before("e\u{301}x", 2), 1);
}

// ---- lines -------------------------------------------------------------------------

#[test]
fn rows_and_columns_go_round() {
    let lines = vec!["ab".to_string(), "".to_string(), "中".to_string()];
    for o in [0, 1, 2, 3, 4, 7] {
        let (row, col) = offset_rc(&lines, o);
        assert_eq!(rc_offset(&lines, row, col), o);
    }
    assert_eq!(offset_rc(&lines, 4), (2, 0));
}

#[test]
fn lines_count_utf16_units() {
    let mut storage = SharedLines::default();
    storage.set(vec!["a😀b".to_string(), "é".to_string()]);
    let buf = LinesBuf(storage);
    assert_eq!(buf.byte_to_utf16(5), 3);
    assert_eq!(buf.utf16_to_byte(3), 5);
    assert_eq!(buf.byte_to_utf16(7), 5);
    assert_eq!(buf.utf16_to_byte(5), 7);
}

// ---- configuration -----------------------------------------------------------------

#[test]
fn configuration_keeps_what_it_does_not_know() {
    let c = parse("\" a comment\n\nset nu ts=3\nset nornu\nnnoremap <Leader>w :w<CR>\nlua x()\nsource ~/more\n");
    assert_eq!(
        c.settings,
        vec![
            Setting::On("nu".to_string()),
            Setting::Value("ts".to_string(), "3".to_string()),
            Setting::Off("rnu".to_string()),
        ]
    );
    assert_eq!(c.mappings.len(), 1);
    assert_eq!(c.mappings[0].class, ModeClass::Normal);
    assert!(c.mappings[0].noremap);
    assert_eq!(c.mappings[0].lhs, vec![Key::char('\\'), Key::char('w')]);
    assert_eq!(c.ignored, vec!["lua x()".to_string()]);
    assert_eq!(c.sources, vec!["~/more".to_string()]);
    let mut vim = VimState::new();
    let stats = vim.apply_config(&c);
    assert_eq!((stats.options, stats.mappings, stats.ignored), (3, 1, 1));
    assert!(vim.options.number);
    assert_eq!(vim.options.tabstop, 3);
}

#[test]
fn options_read_back() {
    let mut o = Options::default();
    assert!(o.set_boolean("rnu", true));
    assert_eq!(o.bool_option("relativenumber"), Some(true));
    assert!(o.set_value("sw", "7"));
    assert_eq!(o.shiftwidth, 7);
    assert!(!o.set_value("sw", "x"));
    assert!(!o.set_boolean("nosuch", true));
    assert_eq!(o.bool_option("nosuch"), None);
    o.ignorecase = true;
    o.smartcase = true;
    assert!(o.case_insensitive_for("abc"));
    assert!(!o.case_insensitive_for("aBc"));
}

#[test]
fn tilde_is_the_home_directory() {
    assert_eq!(expand_tilde("~"), PathBase::Home);
    assert_eq!(expand_tilde("~/x/y"), PathBase::UnderHome("x/y".to_string()));
    assert_eq!(expand_tilde("/x/~"), PathBase::Plain);
    assert_eq!(expand_tilde("~bob"), PathBase::Plain);
}

#[test]
fn layers_load_user_first_and_host_second() {
    let layers = Layers { user: Some("u".to_string()), host: Some("h".to_string()) };
    let plan = layers.plan();
    assert_eq!(plan.len(), 2);
    assert_eq!(plan[0].path, "u");
    assert_eq!(plan[0].action_policy, ActionPolicy::Ignore);
    assert_eq!(plan[1].path, "h");
    assert_eq!(plan[1].action_policy, ActionPolicy::Report);
    assert_eq!(Layers::with_default_user(None).plan(), vec![]);
    let mut vim = VimState::new();
    begin_layer(&mut vim, &plan[0]);
    assert!(vim.lenient_actions());
    begin_layer(&mut vim, &plan[1]);
    assert!(!vim.lenient_actions());
    begin_layer(&mut vim, &plan[0]);
    end_layers(&mut vim);
    assert!(!vim.lenient_actions());
}

#[test]
fn sources_load_after_their_file_in_order() {
    let mut vim = VimState::new();
    let mut loading = Loading::new("a");
    let mut order = Vec::new();
    while let Some(path) = loading.next_file().map(|p| p.to_string()) {
        order.push(path.clone());
        let text = match path.as_str() {
            "a" => Some("set nu\nsource b\nsource c\n"),
            "b" => Some("source d\nbogus\n"),
            "c" => Some("map x y\n"),
            _ => None,
        };
        loading.feed(&mut vim, text);
    }
    assert_eq!(order, vec!["a", "b", "d", "c"]);
    let stats = LoadedStats::default().count(loading.stats);
    assert_eq!((stats.options, stats.ignored, stats.files), (1, 1, 1));
    let both = stats.and(stats);
    assert_eq!((both.options, both.ignored, both.files), (2, 2, 2));
}

#[test]
fn a_file_that_sources_itself_comes_to_an_end() {
    let mut vim = VimState::new();
    let mut loading = Loading::new("a");
    let mut reads = 0;
    while loading.next_file().is_some() {
        reads += 1;
        loading.feed(&mut vim, Some("source a\n"));
    }
    assert_eq!(reads, 5);
}

// ---- painting ----------------------------------------------------------------------

#[test]
fn caret_blinks_and_restarts() {
    let mut b = CaretBlinker::new();
    assert!(b.is_visible());
    b.tick();
    assert!(!b.is_visible());
    b.note_activity();
    assert!(b.is_visible());
    b.tick();
    assert!(b.is_visible());
    b.tick();
    assert!(!b.is_visible());
}

#[test]
fn block_caret_covers_one_character() {
    assert_eq!(char_range_at("a中b", 1), Some(1..4));
    assert_eq!(char_range_at("a中b", 5), None);
    assert_eq!(build_runs("a中b", Some(1..4)), vec![(1, false), (3, true), (1, false)]);
    assert_eq!(build_runs("ab", None), vec![(2, false)]);
}

// ---- flat documents ----------------------------------------------------------------

#[test]
fn groups_are_walked_once() {
    let mut d = FlatDoc::new();
    d.push_group(vec![("one".to_string(), 1), (" two".to_string(), 2)]);
    d.push_raw("\n");
    d.push_group(vec![("three".to_string(), 3)]);
    assert_eq!(d.text(), "one two\nthree");
    let mut c = GroupCursor::new(d.groups());
    assert_eq!(c.last_index(), None);
    assert_eq!(c.next().unwrap().flat, 0..7);
    assert_eq!(c.last_index(), Some(0));
    assert_eq!(c.next().unwrap().pieces[0].style, 3);
    assert!(c.next().is_none());
    assert_eq!(c.last_index(), Some(1));
    assert_eq!(d.into_text(), "one two\nthree");
}

#[test]
fn boundaries_round_down_and_up() {
    assert_eq!(floor_boundary("a中b", 2), 1);
    assert_eq!(ceil_boundary("a中b", 2), 4);
    assert_eq!(floor_boundary("a中b", 99), 5);
    assert_eq!(ceil_boundary("a中b", 99), 99);
}

#[test]
fn pager_selects_and_yanks() {
    let mut p = Pager::new("one two\nthree\n".to_string());
    p.set_cursor(4);
    p.enter_visual(false);
    p.feed(Key::char('e'));
    assert_eq!(p.selected_text().as_deref(), Some("two"));
    assert_eq!(selected_char_count(&p), 3);
    p.feed(Key::char('y'));
    assert_eq!(p.take_clip().as_deref(), Some("two"));
    p.feed(Key::char('x'));
    assert_eq!(p.buf.text(), "one two\nthree\n");
    p.set_cursor(4);
    p.enter_visual(false);
    for key in ["e", "\"", "+", "y"] {
        p.feed(Key::parse(key));
    }
    assert_eq!(p.host.clip.as_deref(), Some("two"));
}
