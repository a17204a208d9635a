//! The rope buffer.
use gpui_vim::buffer::{VimBuffer, VimBufferMut};
use gpui_vim::rope::RopeBuffer;

fn buf(text: &str) -> RopeBuffer {
    RopeBuffer::new(text)
}

#[test]
fn line_semantics_match_engine() {
    let b = buf("alpha\nbeta\ngamma\ndelta\n");
    assert_eq!(b.line_count(), 4);
    assert_eq!(b.line_range(3), 17..23);
    assert_eq!(b.line_end(3), 22);

    let b = buf("abc");
    assert_eq!(b.line_count(), 1);
    assert_eq!(b.line_range(0), 0..3);
}

#[test]
fn utf16_roundtrip_multibyte() {
    let b = buf("héllo 你好 world");
    let byte = b.line_range(0).end;
    let utf16 = b.byte_to_utf16(byte);
    assert_eq!(b.utf16_to_byte(utf16), byte);
}

#[test]
fn non_boundary_insert_rounds_down_instead_of_appending() {
    let mut b = buf("三四五");
    // byte 4 is inside 四 (3..6): must insert before 四, never at the end
    b.insert_text(4, "x");
    assert_eq!(b.text(), "三x四五");

    let mut b = buf("三四五");
    b.delete_range(4..7); // 4 mid-四, 7 mid-五 (6..9)
    assert_eq!(b.text(), "三五");
}
