//! Key notation.
use gpui_vim::key::{parse_keys, Key};

#[test]
fn parse_basic() {
    assert_eq!(Key::parse("d"), Key::char('d'));
    assert_eq!(Key::parse("<Esc>"), Key::escape());
    assert_eq!(Key::parse("<C-a>"), Key::ctrl_char('a'));
    assert_eq!(Key::parse("<Space>"), Key::named("space"));
    assert_eq!(Key::parse("<CR>"), Key::enter());
    assert_eq!(parse_keys("g g"), vec![Key::char('g'), Key::char('g')]);
}

#[test]
fn notation_roundtrip() {
    for s in ["d", "<Esc>", "<C-a>", "g"] {
        assert_eq!(Key::parse(s).notation().to_lowercase(), s.trim_start_matches('<').trim_end_matches('>').to_lowercase());
    }
}
