//! The contract tests, on buffers that meet them and one that does not.
use gpui_vim::buffer::{VimBuffer, VimBufferMut};
use gpui_vim::doc::{Cells, Chars, Doc, Offset};
use gpui_vim::pager::PagerBuf;
use gpui_vim::tck::{
    buffer_edit_contract, buffer_read_contract, engine_smoke_contract, judge_back, judge_chain,
    judge_char, judge_count, judge_ends, judge_line, judge_range, judge_step, judge_whole, TckHost,
};
use std::ops::Range;

/// A buffer over a string; `line_range` holds the newline.
#[derive(Default)]
struct StrBuf(pub String);

impl VimBuffer for StrBuf {
    fn doc(&self) -> Doc {
        unreachable!()
    }
    fn doc_wf(&self) {}
    fn piece(_: Doc, _: Offset, _: Offset) -> Chars {
        unreachable!()
    }
    fn piece_exact(_: Doc, _: Offset, _: Offset) {}
    fn len(&self) -> usize {
        self.0.len()
    }
    fn line_count(&self) -> usize {
        if self.0.is_empty() {
            return 1;
        }
        let n = self.0.split('\n').count();
        if self.0.ends_with('\n') {
            n - 1
        } else {
            n
        }
    }
    fn char_at(&self, offset: usize) -> Option<char> {
        self.0[offset..].chars().next()
    }
    fn prev_char_offset(&self, offset: usize) -> Option<usize> {
        if offset == 0 || offset > self.0.len() {
            return None;
        }
        self.0[..offset].chars().next_back().map(|c| offset - c.len_utf8())
    }
    fn line_range(&self, line: usize) -> Range<usize> {
        if line >= self.line_count() {
            return self.0.len()..self.0.len();
        }
        let mut start = 0;
        for (i, part) in self.0.split('\n').enumerate() {
            if i == line {
                let end = if i + 1 < self.0.split('\n').count() {
                    start + part.len() + 1
                } else {
                    self.0.len()
                };
                return start..end;
            }
            start += part.len() + 1;
        }
        unreachable!()
    }
    fn offset_to_line(&self, offset: usize) -> usize {
        self.0[..offset.min(self.0.len())].split('\n').count() - 1
    }
    fn slice(&self, range: Range<usize>) -> String {
        self.0[range].to_owned()
    }
}

impl VimBufferMut for StrBuf {
    fn blanks_join_their_line(_: Doc, _: Offset, _: Chars) {}
    fn edition(&self) -> u64 {
        0
    }
    fn next_edition(n: u64) -> u64 {
        n
    }
    fn editable(&self) -> bool {
        true
    }
    fn doc_of(_: Cells) -> Doc {
        unreachable!()
    }
    fn edited(_: Doc, _: Offset, _: Offset, _: Chars) -> Doc {
        unreachable!()
    }
    fn takes(_: Chars) -> bool {
        true
    }
    fn edited_exact(_: Doc, _: Offset, _: Offset, _: Chars) {}
    fn insert_text(&mut self, offset: usize, text: &str) {
        self.0.insert_str(offset, text);
    }
    fn delete_range(&mut self, range: Range<usize>) {
        self.0.replace_range(range, "");
    }
}

/// A buffer whose line ranges leave the newline out, which the tests catch.
struct NoNewlineBuf(pub String);

impl VimBuffer for NoNewlineBuf {
    fn doc(&self) -> Doc {
        unreachable!()
    }
    fn doc_wf(&self) {}
    fn piece(_: Doc, _: Offset, _: Offset) -> Chars {
        unreachable!()
    }
    fn piece_exact(_: Doc, _: Offset, _: Offset) {}
    fn len(&self) -> usize {
        self.0.len()
    }
    fn line_count(&self) -> usize {
        StrBuf(self.0.clone()).line_count()
    }
    fn char_at(&self, offset: usize) -> Option<char> {
        StrBuf(self.0.clone()).char_at(offset)
    }
    fn prev_char_offset(&self, offset: usize) -> Option<usize> {
        StrBuf(self.0.clone()).prev_char_offset(offset)
    }
    fn line_range(&self, line: usize) -> Range<usize> {
        let mut start = 0;
        for (i, part) in self.0.split('\n').enumerate() {
            if i == line {
                return start..start + part.len();
            }
            start += part.len() + 1;
        }
        self.0.len()..self.0.len()
    }
    fn offset_to_line(&self, offset: usize) -> usize {
        StrBuf(self.0.clone()).offset_to_line(offset)
    }
    fn slice(&self, range: Range<usize>) -> String {
        self.0[range].to_owned()
    }
}

#[test]
fn read_contract_accepts_reference_impl() {
    let buf = StrBuf("alpha\nbeta 中文\n\n尾行\n".into());
    buffer_read_contract(&buf).unwrap();
    let buf = StrBuf("中文 mix emoji 👨‍👩‍👧".into());
    buffer_read_contract(&buf).unwrap();
    let buf = StrBuf(String::new());
    buffer_read_contract(&buf).unwrap();
}

#[test]
fn read_contract_catches_missing_newline_in_range() {
    let buf = NoNewlineBuf("alpha\nbeta".into());
    assert!(buffer_read_contract(&buf).is_err());
}

#[test]
fn edit_contract_passes_reference_impl() {
    let mut buf = StrBuf::default();
    buffer_edit_contract(&mut buf).unwrap();
}

#[test]
fn engine_smoke_passes_reference_impl() {
    let mut buf = StrBuf::default();
    let mut host = TckHost::default();
    engine_smoke_contract(&mut buf, &mut host).unwrap();
    assert_eq!(buf.0, "gammax\nlpha\nbeta\n");
}

#[test]
fn edit_contract_says_what_is_wrong() {
    // a pager takes no edits
    let mut buf = PagerBuf::new(String::new());
    assert_eq!(
        buffer_edit_contract(&mut buf),
        Err("内容 \"\" ≠ 期望 \"ab\"".to_string())
    );
    let mut buf = PagerBuf::new("x".to_string());
    assert_eq!(
        buffer_edit_contract(&mut buf),
        Err("buffer_edit_contract 要求空缓冲".to_string())
    );
}

#[test]
fn every_reading_is_judged() {
    assert_eq!(judge_count(1), Ok(()));
    assert!(judge_count(0).unwrap_err().starts_with("line_count() == 0"));
    assert_eq!(judge_range(0, 3, 1, 3), Ok(()));
    assert_eq!(judge_range(2, 3, 1, 4).unwrap_err(), "line 2: line_range 1..4 越界（len=3）");
    assert!(judge_range(2, 3, 2, 1).is_err());
    assert_eq!(judge_line(0, 2, 9, 0, 3, "ab\n"), Ok(()));
    assert_eq!(
        judge_line(0, 2, 9, 0, 4, "ab\n").unwrap_err(),
        "line 0: slice(range).len() = 3 ≠ range.len() = 4"
    );
    assert!(judge_line(0, 2, 9, 0, 2, "ab").unwrap_err().contains("\\n"));
    assert!(judge_line(1, 2, 9, 0, 2, "ab").unwrap_err().contains("end=2 ≠ len=9"));
    assert_eq!(judge_line(1, 2, 2, 0, 2, "ab"), Ok(()));
    assert_eq!(judge_back(3, 7, 3), Ok(()));
    assert_eq!(judge_back(3, 7, 2).unwrap_err(), "line 3: offset_to_line(行首=7) = 2");
    assert_eq!(judge_whole(3, "中"), Ok(()));
    assert_eq!(judge_whole(2, "中").unwrap_err(), "slice(0..len).len() = 3 ≠ len = 2");
    assert_eq!(judge_char(4, Some('x')), Ok(()));
    assert!(judge_char(4, None).unwrap_err().starts_with("char_at(4) = None"));
    assert_eq!(judge_ends(None, None), Ok(()));
    assert!(judge_ends(Some('x'), None).unwrap_err().starts_with("char_at(len)"));
    assert!(judge_ends(None, Some(0)).unwrap_err().starts_with("prev_char_offset(0)"));
    assert_eq!(judge_step(1, 2), Ok(()));
    assert!(judge_step(2, 2).is_err());
    assert_eq!(judge_chain(0, 2, 2), Ok(()));
    assert!(judge_chain(1, 2, 2).unwrap_err().contains("链终点 1"));
    assert!(judge_chain(0, 1, 2).is_err());
}
