//! Contract tests for hosts: executable forms of what a buffer and a host owe
//! the engine.
//!
//! Each function is one contract that a host must meet. A host calls them on
//! its own buffer and host implementations, usually in its tests.
//!
//! Undo and redo, the clipboard and scrolling are left out on purpose: what
//! they do is the host's own affair.
use crate::buffer::{VimBuffer, VimBufferMut};
use crate::cells::{
    cells, char_cells, char_len, lemma_cells_concat, lemma_cells_well_formed, lemma_chars_in_cells,
    lemma_chars_in_concat, well_formed, width,
};
use crate::dispatch::place_text;
use crate::doc::{max, splice, Doc};
use crate::drive::Moment;
use crate::engine::new_vim;
use crate::host::{
    all_declined, asked, hears, Calls, HostCall, ScrollAnchor, VimHost,
};
use crate::search::{opt_pair, pairs};
use crate::key::{char_stroke, named_stroke, Key};
use crate::state::{Ctx, VimState, World};
use crate::strs::{byte_len, chars_of, copy_str, decimal, push_decimal, same_str};
use crate::text::{
    lemma_cells_of_chars, lemma_newline_doc, lemma_range_well_formed, lemma_starts_up_to,
    newline_doc, starts_up_to,
};
use std::ops::Range;
use vstd::prelude::*;

verus! {

// ---- reading -------------------------------------------------------------------------------------

/// Line `i` ends in a newline.
pub open spec fn line_closed(d: Doc, i: int) -> bool {
    d.char_at(d.line_stop(i) - 1) == Some('\n')
}

/// The first line from `i` on, but for the last one, without a newline.
pub open spec fn open_line(d: Doc, i: int) -> Option<int>
    decreases d.line_count() - i,
{
    if i + 1 >= d.line_count() {
        None
    } else if line_closed(d, i) {
        open_line(d, i + 1)
    } else {
        Some(i)
    }
}

pub open spec fn open_line_message(i: int) -> Seq<char> {
    "line "@ + decimal(i)
        + ": 非末行的 line_range 必须包含终止 \\n（引擎的 dd/yy 依赖它）"@
}

/// What went wrong, if anything did.
pub open spec fn failure(r: Result<(), String>) -> Option<Seq<char>> {
    match r {
        Ok(_) => None,
        Err(m) => Some(m@),
    }
}

/// What reading a buffer reveals.
pub open spec fn read_failure(d: Doc) -> Option<Seq<char>> {
    match open_line(d, 0) {
        Some(i) => Some(open_line_message(i)),
        None => None,
    }
}

fn numbered(before: &str, n: usize, after: &str) -> (s: String)
    ensures
        s@ == before@ + decimal(n as int) + after@,
{
    let mut s = copy_str(before);
    push_decimal(&mut s, n as u64);
    s.push_str(after);
    s
}

fn numbered_twice(before: &str, n: usize, between: &str, m: usize, after: &str) -> (s: String)
    ensures
        s@ == before@ + decimal(n as int) + between@ + decimal(m as int) + after@,
{
    let mut s = numbered(before, n, between);
    push_decimal(&mut s, m as u64);
    s.push_str(after);
    s
}

/// The last character of a line's text is a newline.
fn ends_in_newline(text: &str) -> (b: bool)
    ensures
        b == (text@.len() > 0 && text@.last() == '\n'),
{
    let chars = chars_of(text);
    chars.len() > 0 && chars[chars.len() - 1] == '\n'
}

// ---- one check after the other -----------------------------------------------------------------------

pub open spec fn count_failure(lines: int) -> Option<Seq<char>> {
    if lines == 0 {
        Some("line_count() == 0：空缓冲也必须有恰好 1 行"@)
    } else {
        None
    }
}

/// Judges how many lines a buffer has.
pub fn judge_count(lines: usize) -> (r: Result<(), String>)
    ensures
        failure(r) == count_failure(lines as int),
{
    if lines == 0 {
        return Err(copy_str("line_count() == 0：空缓冲也必须有恰好 1 行"));
    }
    Ok(())
}

/// A line lies within the buffer.
pub open spec fn range_failure(line: int, len: int, start: int, end: int) -> Option<Seq<char>> {
    if start > end || end > len {
        Some(
            "line "@ + decimal(line) + ": line_range "@ + decimal(start) + ".."@ + decimal(end)
                + " 越界（len="@ + decimal(len) + "）"@,
        )
    } else {
        None
    }
}

/// Judges the range of a line.
pub fn judge_range(line: usize, len: usize, start: usize, end: usize) -> (r: Result<(), String>)
    ensures
        failure(r) == range_failure(line as int, len as int, start as int, end as int),
{
    if start > end || end > len {
        let mut m = numbered_twice("line ", line, ": line_range ", start, "..");
        push_decimal(&mut m, end as u64);
        m.push_str(" 越界（len=");
        push_decimal(&mut m, len as u64);
        m.push_str("）");
        return Err(m);
    }
    Ok(())
}

/// The text of a line is as long as its range; it ends in a newline, or the
/// line is the last one and reaches to the end of the buffer.
pub open spec fn line_failure(
    line: int,
    lines: int,
    len: int,
    start: int,
    end: int,
    text: Seq<char>,
) -> Option<Seq<char>> {
    if cells(text).len() != end - start {
        Some(
            "line "@ + decimal(line) + ": slice(range).len() = "@ + decimal(
                cells(text).len() as int,
            ) + " ≠ range.len() = "@ + decimal(end - start),
        )
    } else if line + 1 < lines {
        if text.len() > 0 && text.last() == '\n' {
            None
        } else {
            Some(open_line_message(line))
        }
    } else if end != len {
        Some(
            "line "@ + decimal(line) + ": 末行 range 必须延伸到缓冲区尾（end="@ + decimal(end)
                + " ≠ len="@ + decimal(len) + "）"@,
        )
    } else {
        None
    }
}

/// Judges the text of a line.
pub fn judge_line(
    line: usize,
    lines: usize,
    len: usize,
    start: usize,
    end: usize,
    text: &str,
) -> (r: Result<(), String>)
    requires
        start <= end,
    ensures
        failure(r) == line_failure(
            line as int,
            lines as int,
            len as int,
            start as int,
            end as int,
            text@,
        ),
{
    let size = byte_len(text);
    if size != end - start {
        let mut m = numbered_twice("line ", line, ": slice(range).len() = ", size, " ≠ range.len() = ");
        push_decimal(&mut m, (end - start) as u64);
        return Err(m);
    }
    if lines > 0 && line < lines - 1 {
        if !ends_in_newline(text) {
            return Err(
                numbered(
                    "line ",
                    line,
                    ": 非末行的 line_range 必须包含终止 \\n（引擎的 dd/yy 依赖它）",
                ),
            );
        }
    } else if end != len {
        let mut m = numbered_twice("line ", line, ": 末行 range 必须延伸到缓冲区尾（end=", end, " ≠ len=");
        push_decimal(&mut m, len as u64);
        m.push_str("）");
        return Err(m);
    }
    Ok(())
}

/// The start of a line is in that line.
pub open spec fn back_failure(line: int, start: int, back: int) -> Option<Seq<char>> {
    if back != line {
        Some(
            "line "@ + decimal(line) + ": offset_to_line(行首="@ + decimal(start) + ") = "@
                + decimal(back),
        )
    } else {
        None
    }
}

/// Judges which line the start of a line is in.
pub fn judge_back(line: usize, start: usize, back: usize) -> (r: Result<(), String>)
    ensures
        failure(r) == back_failure(line as int, start as int, back as int),
{
    if back != line {
        let mut m = numbered_twice("line ", line, ": offset_to_line(行首=", start, ") = ");
        push_decimal(&mut m, back as u64);
        return Err(m);
    }
    Ok(())
}

/// The whole text is as long as the buffer.
pub open spec fn whole_failure(len: int, text: Seq<char>) -> Option<Seq<char>> {
    if cells(text).len() != len {
        Some(
            "slice(0..len).len() = "@ + decimal(cells(text).len() as int) + " ≠ len = "@ + decimal(
                len,
            ) + ""@,
        )
    } else {
        None
    }
}

/// Judges the whole text.
pub fn judge_whole(len: usize, text: &str) -> (r: Result<(), String>)
    ensures
        failure(r) == whole_failure(len as int, text@),
{
    let size = byte_len(text);
    if size != len {
        return Err(numbered_twice("slice(0..len).len() = ", size, " ≠ len = ", len, ""));
    }
    Ok(())
}

/// A character starts at a boundary.
pub open spec fn char_failure(o: int, c: Option<char>) -> Option<Seq<char>> {
    if c is None {
        Some("char_at("@ + decimal(o) + ") = None：字符边界上必须返回 Some"@)
    } else {
        None
    }
}

/// Judges the character at a boundary.
pub fn judge_char(o: usize, c: Option<char>) -> (r: Result<(), String>)
    ensures
        failure(r) == char_failure(o as int, c),
{
    if c.is_none() {
        return Err(numbered("char_at(", o, ") = None：字符边界上必须返回 Some"));
    }
    Ok(())
}

/// No character starts at the end of the text, and none ends at its start.
pub open spec fn ends_failure(at_end: Option<char>, before: Option<usize>) -> Option<Seq<char>> {
    if at_end is Some {
        Some("char_at(len) 必须是 None"@)
    } else if before is Some {
        Some("prev_char_offset(0) 必须是 None"@)
    } else {
        None
    }
}

/// Judges what lies at the two ends of the text.
pub fn judge_ends(at_end: Option<char>, before: Option<usize>) -> (r: Result<(), String>)
    ensures
        failure(r) == ends_failure(at_end, before),
{
    if at_end.is_some() {
        return Err(copy_str("char_at(len) 必须是 None"));
    }
    if before.is_some() {
        return Err(copy_str("prev_char_offset(0) 必须是 None"));
    }
    Ok(())
}

/// Steps back over characters come to an end.
pub open spec fn step_failure(steps: int, chars: int) -> Option<Seq<char>> {
    if steps >= chars {
        Some("prev_char_offset 链不收敛（步数超过字符数）"@)
    } else {
        None
    }
}

/// Judges one more step back, behind so many of them.
pub fn judge_step(steps: usize, chars: usize) -> (r: Result<(), String>)
    ensures
        failure(r) == step_failure(steps as int, chars as int),
{
    if steps >= chars {
        return Err(copy_str("prev_char_offset 链不收敛（步数超过字符数）"));
    }
    Ok(())
}

/// Steps back over characters end at the start, one for each character.
pub open spec fn chain_failure(o: int, steps: int, chars: int) -> Option<Seq<char>> {
    if o != 0 || steps != chars {
        Some(
            "prev_char_offset 链终点 "@ + decimal(o) + "（应为 0）或步数 "@ + decimal(steps)
                + " ≠ 字符数 "@ + decimal(chars),
        )
    } else {
        None
    }
}

/// Judges where steps back over characters have ended.
pub fn judge_chain(o: usize, steps: usize, chars: usize) -> (r: Result<(), String>)
    ensures
        failure(r) == chain_failure(o as int, steps as int, chars as int),
{
    if o != 0 || steps != chars {
        let mut m = numbered_twice("prev_char_offset 链终点 ", o, "（应为 0）或步数 ", steps, " ≠ 字符数 ");
        push_decimal(&mut m, chars as u64);
        return Err(m);
    }
    Ok(())
}

// ---- a whole buffer ---------------------------------------------------------------------------------

/// A range of whole characters copies out with its own length, and ends in
/// the character before its end.
proof fn lemma_slice(d: Doc, a: int, b: int)
    requires
        d.wf(),
        d.is_range(a, b),
    ensures
        cells(d.slice(a, b)).len() == b - a,
        a < b ==> d.slice(a, b).len() > 0 && (d.slice(a, b).last() == '\n' <==> d.char_at(b - 1)
            == Some('\n')),
{
    lemma_range_well_formed(d.cells, a, b);
    lemma_cells_of_chars(d.cells.subrange(a, b));
    if a < b {
        d.lemma_prev(b);
        let p = d.prev(b)->0;
        let c = d.char_at(p)->0;
        if p < a {
            assert(crate::cells::char_fits(d.cells, p));
            assert(d.cells[a] is None);
        }
        lemma_one_more(d, a, b);
        if p < b - 1 {
            assert(crate::cells::char_fits(d.cells, p));
            assert(d.cells[b - 1] is None);
            assert(width('\n') == 1);
        }
    }
}

/// The character before `b` is one more than those before it.
proof fn lemma_one_more(d: Doc, a: int, b: int)
    requires
        d.wf(),
        0 <= a <= d.prev(b)->0,
        0 < b <= d.len(),
        d.at_boundary(b),
    ensures
        d.slice(a, b) == d.slice(a, d.prev(b)->0).push(d.char_at(d.prev(b)->0)->0),
{
    d.lemma_prev(b);
    let p = d.prev(b)->0;
    let c = d.char_at(p)->0;
    assert(crate::cells::char_fits(d.cells, p));
    let one = seq![c];
    assert(one.drop_last() =~= Seq::empty());
    assert(cells(one.drop_last()) =~= Seq::empty());
    assert(cells(one) =~= char_cells(c));
    lemma_chars_in_cells(one);
    assert(d.cells.subrange(p, b) =~= char_cells(c)) by {
        assert forall|k: int| p < k < b implies d.cells[k] is None by {}
    }
    assert(d.cells.subrange(a, b) =~= d.cells.subrange(a, p) + d.cells.subrange(p, b));
    lemma_chars_in_concat(d.cells.subrange(a, p), d.cells.subrange(p, b));
    assert(d.slice(a, p) + one =~= d.slice(a, p).push(c));
}

/// One line of a buffer.
fn check_line<B: VimBuffer>(buf: &B, line: usize, lines: usize, len: usize) -> (r: Result<
    (),
    String,
>)
    requires
        lines == buf.doc().line_count(),
        len == buf.doc().len(),
        line < lines,
    ensures
        failure(r) == if line + 1 < lines && !line_closed(buf.doc(), line as int) {
            Some(open_line_message(line as int))
        } else {
            None
        },
{
    let ghost d = buf.doc();
    let range = buf.line_range(line);
    proof {
        buf.doc_wf();
        d.lemma_line_bounds(line as int);
        if line + 1 < lines {
            assert(d.starts[line as int] < d.starts[line + 1]);
        }
        lemma_slice(d, range.start as int, range.end as int);
        d.lemma_line_of_unique(range.start as int, line as int);
    }
    let (start, end) = (range.start, range.end);
    judge_range(line, len, start, end)?;
    let text = buf.slice(start..end);
    judge_line(line, lines, len, start, end, text.as_str())?;
    judge_back(line, start, buf.offset_to_line(start))
}

/// Each boundary of a buffer holds a character.
fn check_chars<B: VimBuffer>(buf: &B, len: usize) -> (r: Result<(), String>)
    requires
        len == buf.doc().len(),
    ensures
        r is Ok,
{
    let ghost d = buf.doc();
    proof {
        buf.doc_wf();
    }
    let mut o: usize = 0;
    while o < len
        invariant
            d == buf.doc(),
            d.wf(),
            len == d.len(),
            o <= len,
            d.at_boundary(o as int),
        decreases len - o,
    {
        proof {
            d.lemma_char_fits(o as int);
        }
        let at = buf.char_at(o);
        judge_char(o, at)?;
        if let Some(c) = at {
            o = o + char_len(c);
        }
    }
    Ok(())
}

/// Stepping back from the end of a buffer meets each of its characters.
fn check_steps_back<B: VimBuffer>(buf: &B, len: usize, chars: usize) -> (r: Result<(), String>)
    requires
        len == buf.doc().len(),
        chars == buf.doc().slice(0, len as int).len(),
    ensures
        r is Ok,
{
    let ghost d = buf.doc();
    proof {
        buf.doc_wf();
        assert(d.cells.subrange(0, len as int) =~= d.cells);
    }
    let mut o: usize = len;
    let mut steps: usize = 0;
    loop
        invariant
            d == buf.doc(),
            d.wf(),
            len == d.len(),
            o <= len,
            d.at_boundary(o as int),
            chars == d.slice(0, len as int).len(),
            steps + d.slice(0, o as int).len() == chars,
        ensures
            o == 0,
            steps == chars,
        decreases o,
    {
        let p = match buf.prev_char_offset(o) {
            Some(p) => p,
            None => {
                proof {
                    if o > 0 {
                        d.lemma_prev(o as int);
                    }
                    assert(d.cells.subrange(0, 0) =~= Seq::empty());
                }
                break;
            },
        };
        proof {
            d.lemma_prev(o as int);
            lemma_one_more(d, 0, o as int);
        }
        judge_step(steps, chars)?;
        steps = steps + 1;
        o = p;
    }
    judge_chain(o, steps, chars)
}

/// The read-only contract: the line semantics and character boundaries of a
/// [`VimBuffer`], checked on what the buffer holds at present. Best run on
/// several lines with CJK, multi-byte characters and blank lines.
///
/// - `line_count() >= 1` (an empty buffer has exactly one line);
/// - `line_range(i)` covers the terminating `\n` of every line but the last,
///   and the last one reaches to the end of the buffer — linewise operations
///   (dd/yy/V-line) rely on it;
/// - `slice(range).len() == range.len()`;
/// - `offset_to_line(line_start(i)) == i`;
/// - `char_at` is `Some` at each character boundary, `None` elsewhere;
/// - `prev_char_offset` steps from `len` back to 0 over every character.
///
/// A buffer that keeps the contract of [`VimBuffer`] can only lack a newline.
pub fn buffer_read_contract<B: VimBuffer>(buf: &B) -> (r: Result<(), String>)
    ensures
        failure(r) == read_failure(buf.doc()),
{
    let ghost d = buf.doc();
    proof {
        buf.doc_wf();
        assert(d.cells.subrange(0, d.len()) =~= d.cells);
        lemma_slice(d, 0, d.len());
    }
    let len = buf.len();
    let lines = buf.line_count();
    judge_count(lines)?;
    let mut line: usize = 0;
    while line < lines
        invariant
            d == buf.doc(),
            lines == d.line_count(),
            len == d.len(),
            line <= lines,
            open_line(d, line as int) == open_line(d, 0),
        decreases lines - line,
    {
        check_line(buf, line, lines, len)?;
        line = line + 1;
    }
    let full = buf.slice(0..len);
    judge_whole(len, full.as_str())?;
    check_chars(buf, len)?;
    if len > 0 {
        judge_ends(buf.char_at(len), buf.prev_char_offset(0))?;
        let chars = chars_of(full.as_str()).len();
        check_steps_back(buf, len, chars)?;
    }
    Ok(())
}

// ---- editing -------------------------------------------------------------------------------------

/// A text as `{:?}` writes it, quotes and escapes included.
pub uninterp spec fn quoted(text: Seq<char>) -> Seq<char>;

/// std's `Debug` formatting of `str`: the result depends on the text alone.
/// What it escapes, and how, is left unsaid.
#[verifier::external_body]
fn debug_text(text: &str) -> (s: String)
    ensures
        s@ == quoted(text@),
{
    format!("{:?}", text)
}

/// What is wrong with a buffer that should hold `want`.
pub open spec fn content_failure(d: Doc, want: Seq<char>) -> Option<Seq<char>> {
    let got = d.slice(0, d.len());
    match read_failure(d) {
        Some(m) => Some(m),
        None => if got != want {
            Some("内容 "@ + quoted(got) + " ≠ 期望 "@ + quoted(want))
        } else {
            None
        },
    }
}

fn assert_content<B: VimBuffer>(buf: &B, want: &str) -> (r: Result<(), String>)
    ensures
        failure(r) == content_failure(buf.doc(), want@),
{
    let checked = buffer_read_contract(buf);
    if checked.is_err() {
        return checked;
    }
    proof {
        buf.doc_wf();
    }
    let got = buf.slice(0..buf.len());
    if !same_str(got.as_str(), want) {
        let mut m = copy_str("内容 ");
        m.push_str(debug_text(got.as_str()).as_str());
        m.push_str(" ≠ 期望 ");
        m.push_str(debug_text(want).as_str());
        return Err(m);
    }
    Ok(())
}

/// A buffer after an edit.
pub open spec fn after_edit<B: VimBufferMut>(
    d: Doc,
    editable: bool,
    a: int,
    b: int,
    with: Seq<char>,
) -> Doc {
    if editable {
        B::edited(d, a, b, with)
    } else {
        d
    }
}

/// What is wrong with a two-line buffer behind its newline.
pub open spec fn split_failure(d: Doc) -> Option<Seq<char>> {
    match content_failure(d, "\nab中"@) {
        Some(m) => Some(m),
        None => if d.line_count() != 2 {
            Some("line_count() = "@ + decimal(d.line_count()) + " ≠ 2"@)
        } else if d.line_of(1) != 1 {
            Some(
                "offset_to_line(1) = "@ + decimal(d.line_of(1))
                    + " ≠ 1（\\n 之后的字节属于第 1 行）"@,
            )
        } else {
            None
        },
    }
}

/// What is wrong with a buffer that should be empty.
pub open spec fn cleared_failure(d: Doc) -> Option<Seq<char>> {
    if d.len() != 0 || d.line_count() != 1 {
        Some(
            "清空后 len="@ + decimal(d.len()) + " line_count="@ + decimal(d.line_count())
                + "（应为 0 与 1）"@,
        )
    } else {
        None
    }
}

/// The edits tried on a buffer, in order: text, a multi-byte character at the
/// end, a newline in front, that newline deleted, all deleted.
pub open spec fn edit_trial<B: VimBufferMut>(d: Doc, editable: bool) -> (Doc, Option<Seq<char>>) {
    let d1 = after_edit::<B>(d, editable, 0, 0, "ab"@);
    let d2 = after_edit::<B>(d1, editable, d1.len(), d1.len(), "中"@);
    let d3 = after_edit::<B>(d2, editable, 0, 0, "\n"@);
    let d4 = after_edit::<B>(d3, editable, 0, 1, Seq::empty());
    let d5 = after_edit::<B>(d4, editable, 0, d4.len(), Seq::empty());
    if d.len() != 0 {
        (d, Some("buffer_edit_contract 要求空缓冲"@))
    } else if content_failure(d1, "ab"@) is Some {
        (d1, content_failure(d1, "ab"@))
    } else if content_failure(d2, "ab中"@) is Some {
        (d2, content_failure(d2, "ab中"@))
    } else if split_failure(d3) is Some {
        (d3, split_failure(d3))
    } else if content_failure(d4, "ab中"@) is Some {
        (d4, content_failure(d4, "ab中"@))
    } else {
        (d5, cleared_failure(d5))
    }
}

fn check_split<B: VimBuffer>(buf: &B) -> (r: Result<(), String>)
    ensures
        failure(r) == split_failure(buf.doc()),
{
    let checked = assert_content(buf, "\nab中");
    if checked.is_err() {
        return checked;
    }
    let lines = buf.line_count();
    if lines != 2 {
        return Err(numbered("line_count() = ", lines, " ≠ 2"));
    }
    let line = buf.offset_to_line(1);
    if line != 1 {
        return Err(
            numbered("offset_to_line(1) = ", line, " ≠ 1（\\n 之后的字节属于第 1 行）"),
        );
    }
    Ok(())
}

fn check_cleared<B: VimBuffer>(buf: &B) -> (r: Result<(), String>)
    ensures
        failure(r) == cleared_failure(buf.doc()),
{
    let len = buf.len();
    let lines = buf.line_count();
    if len != 0 || lines != 1 {
        return Err(numbered_twice("清空后 len=", len, " line_count=", lines, "（应为 0 与 1）"));
    }
    Ok(())
}

/// The mutating contract: UTF-8 safety of the two edit primitives of a
/// [`VimBufferMut`].
///
/// Asks for an **empty buffer**; the read-only contract must hold after every
/// edit.
pub fn buffer_edit_contract<B: VimBufferMut>(buf: &mut B) -> (r: Result<(), String>)
    ensures
        (final(buf).doc(), failure(r)) == edit_trial::<B>(old(buf).doc(), old(buf).editable()),
        final(buf).editable() == old(buf).editable(),
{
    if !buf.is_empty() {
        return Err(copy_str("buffer_edit_contract 要求空缓冲"));
    }
    buf.insert_text(0, "ab");
    let checked = assert_content(&*buf, "ab");
    if checked.is_err() {
        return checked;
    }
    let end = buf.len();
    buf.insert_text(end, "中");
    let checked = assert_content(&*buf, "ab中");
    if checked.is_err() {
        return checked;
    }
    buf.insert_text(0, "\n");
    let checked = check_split(&*buf);
    if checked.is_err() {
        return checked;
    }
    buf.delete_range(0..1);
    let checked = assert_content(&*buf, "ab中");
    if checked.is_err() {
        return checked;
    }
    let end = buf.len();
    buf.delete_range(0..end);
    check_cleared(&*buf)
}

// ---- driving the engine --------------------------------------------------------------------------

/// One thing that the smoke test does or checks.
pub enum Move {
    /// Keys, typed one by one.
    Keys(Seq<char>),
    /// Text, placed at the cursor.
    Text(Seq<char>),
    Escape,
    /// The buffer holds this text.
    Holds(Seq<char>),
    /// The cursor is on the last character of the first line.
    AtLineEnd,
}

enum Act {
    Keys(&'static str),
    Text(&'static str),
    Escape,
    Holds(&'static str),
    AtLineEnd,
}

impl View for Act {
    type V = Move;

    closed spec fn view(&self) -> Move {
        match self {
            Act::Keys(s) => Move::Keys(s@),
            Act::Text(s) => Move::Text(s@),
            Act::Escape => Move::Escape,
            Act::Holds(s) => Move::Holds(s@),
            Act::AtLineEnd => Move::AtLineEnd,
        }
    }
}

/// The smoke test: delete a character, go to the end of the line, delete two
/// lines, put them back, append to a line.
pub open spec fn smoke_moves() -> Seq<Move> {
    seq![
        Move::Keys("gg"@),
        Move::Holds("alpha\nbeta\ngamma\n"@),
        Move::Keys("x"@),
        Move::Holds("lpha\nbeta\ngamma\n"@),
        Move::Keys("$"@),
        Move::AtLineEnd,
        Move::Keys("Vjd"@),
        Move::Holds("gamma\n"@),
        Move::Keys("p"@),
        Move::Holds("gamma\nlpha\nbeta\n"@),
        Move::Keys("gg$A"@),
        Move::Text("x"@),
        Move::Escape,
        Move::Holds("gammax\nlpha\nbeta\n"@),
    ]
}

impl World {
    /// Keys, typed one by one; `all` holds what the host answered on each.
    pub open spec fn fed<B: VimBufferMut>(self, keys: Seq<char>, all: Seq<Seq<Moment>>) -> World
        decreases keys.len(),
    {
        if keys.len() == 0 {
            self
        } else {
            self.fed::<B>(keys.drop_last(), all.drop_last()).handle_key::<B>(
                char_stroke(keys.last()),
                all.last(),
            ).0
        }
    }

    pub open spec fn line_end_failure(self) -> Option<Seq<char>> {
        let want = max(self.doc.line_end(0) - 1, 0);
        if self.cursor() != want {
            Some(
                "$ 后 cursor_offset() = "@ + decimal(self.cursor()) + " ≠ 行尾字符 "@ + decimal(
                    want,
                ),
            )
        } else {
            None
        }
    }

    /// One move, and what it revealed.
    pub open spec fn smoke_move<B: VimBufferMut>(self, m: Move, all: Seq<Seq<Moment>>) -> (
        World,
        Option<Seq<char>>,
    ) {
        match m {
            Move::Keys(keys) => (self.fed::<B>(keys, all), None),
            Move::Text(text) => (self.place_text::<B>(text), None),
            Move::Escape => (self.handle_key::<B>(named_stroke("escape"@), all.last()).0, None),
            Move::Holds(text) => (self, content_failure(self.doc, text)),
            Move::AtLineEnd => (self, self.line_end_failure()),
        }
    }

    /// Moves up to the first one that reveals a failure.
    pub open spec fn smoke<B: VimBufferMut>(
        self,
        moves: Seq<Move>,
        all: Seq<Seq<Seq<Moment>>>,
    ) -> (World, Option<Seq<char>>)
        decreases moves.len(),
    {
        if moves.len() == 0 {
            (self, None)
        } else {
            let (w, e) = self.smoke::<B>(moves.drop_last(), all.drop_last());
            match e {
                Some(m) => (w, Some(m)),
                None => w.smoke_move::<B>(moves.last(), all.last()),
            }
        }
    }
}

fn feed<B: VimBufferMut, H: VimHost>(vim: &mut VimState, ctx: &mut Ctx<B, H>, keys: &str) -> (seen:
    Ghost<Seq<Seq<Moment>>>)
    ensures
        *final(final(ctx).buf) == *final(old(ctx).buf),
        *final(final(ctx).host) == *final(old(ctx).host),
        hears(*final(ctx).host, final(vim)@.told, *old(ctx).host, old(vim)@.told),
        final(ctx).world(*final(vim)) == old(ctx).world(*old(vim)).fed::<B>(keys@, seen@),
{
    let chars = chars_of(keys);
    let ghost w = ctx.world(*vim);
    let ghost mut all = Seq::<Seq<Moment>>::empty();
    let mut i: usize = 0;
    proof {
        assert(keys@.take(0) =~= Seq::empty());
    }
    while i < chars.len()
        invariant
            *final(ctx.buf) == *final(old(ctx).buf),
            *final(ctx.host) == *final(old(ctx).host),
            hears(*ctx.host, vim@.told, *old(ctx).host, old(vim)@.told),
            i <= chars.len(),
            chars@ == keys@,
            ctx.world(*vim) == w.fed::<B>(keys@.take(i as int), all),
        decreases chars.len() - i,
    {
        let ghost start = ctx.world(*vim);
        let r = vim.handle_key(ctx, Key::char(chars[i]));
        let ghost after = ctx.world(*vim);
        proof {
            let moments = choose|moments: Seq<Moment>| (after, r) == #[trigger] start.handle_key::<B>(
                char_stroke(keys@[i as int]),
                moments,
            );
            assert(keys@.take(i + 1).drop_last() =~= keys@.take(i as int));
            assert(all.push(moments).drop_last() =~= all);
            all = all.push(moments);
        }
        i = i + 1;
    }
    proof {
        assert(keys@.take(i as int) =~= keys@);
    }
    Ghost(all)
}

fn press_escape<B: VimBufferMut, H: VimHost>(vim: &mut VimState, ctx: &mut Ctx<B, H>) -> (seen: Ghost<
    Seq<Seq<Moment>>,
>)
    ensures
        *final(final(ctx).buf) == *final(old(ctx).buf),
        *final(final(ctx).host) == *final(old(ctx).host),
        hears(*final(ctx).host, final(vim)@.told, *old(ctx).host, old(vim)@.told),
        final(ctx).world(*final(vim)) == old(ctx).world(*old(vim)).handle_key::<B>(
            named_stroke("escape"@),
            seen@.last(),
        ).0,
{
    let ghost start = ctx.world(*vim);
    let r = vim.handle_key(ctx, Key::escape());
    let ghost after = ctx.world(*vim);
    let ghost moments = choose|moments: Seq<Moment>| (after, r) == #[trigger] start.handle_key::<B>(
        named_stroke("escape"@),
        moments,
    );
    let ghost seen = seq![moments];
    Ghost(seen)
}

fn check_line_end<B: VimBufferMut, H: VimHost>(vim: &VimState, ctx: &Ctx<B, H>) -> (r: Result<
    (),
    String,
>)
    ensures
        failure(r) == ctx.world(*vim).line_end_failure(),
{
    let end = ctx.buf.line_end(0);
    let want: usize = if end > 0 {
        end - 1
    } else {
        0
    };
    let at = vim.cursor_offset();
    if at != want {
        let m = numbered_twice("$ 后 cursor_offset() = ", at, " ≠ 行尾字符 ", want, "");
        proof {
            assert(m@ =~= "$ 后 cursor_offset() = "@ + decimal(at as int) + " ≠ 行尾字符 "@
                + decimal(want as int)) by {
                reveal_strlit("");
            }
        }
        return Err(m);
    }
    Ok(())
}

fn act<B: VimBufferMut, H: VimHost>(vim: &mut VimState, ctx: &mut Ctx<B, H>, a: &Act) -> (r: (
    Result<(), String>,
    Ghost<Seq<Seq<Moment>>>,
))
    ensures
        *final(final(ctx).buf) == *final(old(ctx).buf),
        *final(final(ctx).host) == *final(old(ctx).host),
        hears(*final(ctx).host, final(vim)@.told, *old(ctx).host, old(vim)@.told),
        (final(ctx).world(*final(vim)), failure(r.0)) == old(ctx).world(*old(vim)).smoke_move::<B>(
            a@,
            r.1@,
        ),
{
    match a {
        Act::Keys(keys) => {
            let seen = feed(vim, ctx, keys);
            (Ok(()), seen)
        },
        Act::Text(text) => {
            place_text(vim, ctx, text);
            (Ok(()), Ghost(Seq::empty()))
        },
        Act::Escape => {
            let seen = press_escape(vim, ctx);
            (Ok(()), seen)
        },
        Act::Holds(text) => (assert_content(&*ctx.buf, text), Ghost(Seq::empty())),
        Act::AtLineEnd => (check_line_end(&*vim, &*ctx), Ghost(Seq::empty())),
    }
}

spec fn moves(v: Seq<Act>) -> Seq<Move> {
    v.map_values(|a: Act| a@)
}

fn smoke_acts() -> (v: Vec<Act>)
    ensures
        moves(v@) == smoke_moves(),
{
    let v = vec![
        Act::Keys("gg"),
        Act::Holds("alpha\nbeta\ngamma\n"),
        Act::Keys("x"),
        Act::Holds("lpha\nbeta\ngamma\n"),
        Act::Keys("$"),
        Act::AtLineEnd,
        Act::Keys("Vjd"),
        Act::Holds("gamma\n"),
        Act::Keys("p"),
        Act::Holds("gamma\nlpha\nbeta\n"),
        Act::Keys("gg$A"),
        Act::Text("x"),
        Act::Escape,
        Act::Holds("gammax\nlpha\nbeta\n"),
    ];
    proof {
        assert(moves(v@) =~= smoke_moves());
    }
    v
}

fn run_smoke<B: VimBufferMut, H: VimHost>(vim: &mut VimState, ctx: &mut Ctx<B, H>) -> (r: (
    Result<(), String>,
    Ghost<Seq<Seq<Seq<Moment>>>>,
))
    ensures
        *final(final(ctx).buf) == *final(old(ctx).buf),
        *final(final(ctx).host) == *final(old(ctx).host),
        hears(*final(ctx).host, final(vim)@.told, *old(ctx).host, old(vim)@.told),
        (final(ctx).world(*final(vim)), failure(r.0)) == old(ctx).world(*old(vim)).smoke::<B>(
            smoke_moves(),
            r.1@,
        ),
{
    let acts = smoke_acts();
    let ghost w = ctx.world(*vim);
    let ghost script = smoke_moves();
    let ghost mut all = Seq::<Seq<Seq<Moment>>>::empty();
    let mut result: Result<(), String> = Ok(());
    let mut i: usize = 0;
    proof {
        assert(script.take(0) =~= Seq::empty());
    }
    while i < acts.len()
        invariant
            *final(ctx.buf) == *final(old(ctx).buf),
            *final(ctx.host) == *final(old(ctx).host),
            hears(*ctx.host, vim@.told, *old(ctx).host, old(vim)@.told),
            i <= acts.len(),
            moves(acts@) == script,
            (ctx.world(*vim), failure(result)) == w.smoke::<B>(script.take(i as int), all),
        decreases acts.len() - i,
    {
        proof {
            assert(script.take(i + 1).drop_last() =~= script.take(i as int));
            assert(script.take(i + 1).last() == acts@[i as int]@);
        }
        if result.is_ok() {
            let (r, Ghost(seen)) = act(vim, ctx, &acts[i]);
            result = r;
            proof {
                assert(all.push(seen).drop_last() =~= all);
                all = all.push(seen);
            }
        } else {
            proof {
                let none = Seq::<Seq<Moment>>::empty();
                assert(all.push(none).drop_last() =~= all);
                all = all.push(none);
            }
        }
        i = i + 1;
    }
    proof {
        assert(script.take(i as int) =~= script);
    }
    (result, Ghost(all))
}

/// The buffer that the smoke test starts from.
pub open spec fn smoke_start<B: VimBufferMut>(d: Doc, editable: bool, edition: u64) -> World {
    World {
        vim: new_vim(),
        doc: after_edit::<B>(d, editable, 0, 0, "alpha\nbeta\ngamma\n"@),
        editable,
        edition: if editable {
            B::next_edition(edition)
        } else {
            edition
        },
    }
}

/// With what the host answered, the smoke test leaves `d` and reveals `e`.
pub open spec fn smoke_gives<B: VimBufferMut>(
    start: World,
    all: Seq<Seq<Seq<Moment>>>,
    d: Doc,
    e: Option<Seq<char>>,
) -> bool {
    let (w, found) = start.smoke::<B>(smoke_moves(), all);
    w.doc == d && found == e
}

/// The smoke contract: run a fixed piece of editing over the engine's key
/// pipeline on the host's buffer, and check the whole text and the read-only
/// contract on the way.
///
/// Asks for an **empty buffer** ([`TckHost`] serves where the host's own
/// semantics do not matter). Leaves out `u`/`C-r` on purpose.
pub fn engine_smoke_contract<B: VimBufferMut, H: VimHost>(buf: &mut B, host: &mut H) -> (r: Result<
    (),
    String,
>)
    ensures
        old(buf).doc().len() != 0 ==> failure(r) == Some("engine_smoke_contract 要求空缓冲"@)
            && *final(buf) == *old(buf) && *final(host) == *old(host),
        old(buf).doc().len() == 0 ==> exists|all: Seq<Seq<Seq<Moment>>>| #[trigger] smoke_gives::<B>(
            smoke_start::<B>(old(buf).doc(), old(buf).editable(), old(buf).edition()),
            all,
            final(buf).doc(),
            failure(r),
        ),
{
    if !buf.is_empty() {
        return Err(copy_str("engine_smoke_contract 要求空缓冲"));
    }
    buf.insert_text(0, "alpha\nbeta\ngamma\n");
    let mut vim = VimState::new();
    let mut ctx = Ctx { buf, host };
    let ghost start = ctx.world(vim);
    let (result, Ghost(all)) = run_smoke(&mut vim, &mut ctx);
    proof {
        assert(smoke_gives::<B>(start, all, ctx.buf.doc(), failure(result)));
    }
    result
}

// ---- what meets the contracts --------------------------------------------------------------------

/// A text whose lines are what newlines separate meets the read-only contract.
pub proof fn newline_texts_read_well(t: Seq<Option<char>>)
    requires
        well_formed(t),
    ensures
        read_failure(newline_doc(t)) is None,
{
    lemma_no_open_line(t, 0);
}

proof fn lemma_no_open_line(t: Seq<Option<char>>, i: int)
    requires
        well_formed(t),
        0 <= i,
    ensures
        open_line(newline_doc(t), i) is None,
    decreases newline_doc(t).line_count() - i,
{
    let d = newline_doc(t);
    if i + 1 < d.line_count() {
        lemma_starts_up_to(t, t.len() as int);
        assert(d.starts[i + 1] > d.starts[i]);
        assert(t[d.starts[i + 1] - 1] == Some('\n'));
        assert(line_closed(d, i));
        lemma_no_open_line(t, i + 1);
    }
}

/// A newline-separated text that holds what it should shows no failure.
proof fn lemma_holds(text: Seq<char>)
    ensures
        content_failure(newline_doc(cells(text)), text) is None,
{
    lemma_cells_well_formed(text);
    newline_texts_read_well(cells(text));
    lemma_chars_in_cells(text);
    assert(cells(text).subrange(0, cells(text).len() as int) =~= cells(text));
}

/// A buffer that takes the texts tried and separates its lines by newlines
/// meets the mutating contract, and is empty again afterwards.
pub proof fn newline_buffers_take_edits<B: VimBufferMut>()
    requires
        forall|t: Seq<Option<char>>| #[trigger] B::doc_of(t) == newline_doc(t),
        B::takes("ab"@),
        B::takes("中"@),
        B::takes("\n"@),
    ensures
        edit_trial::<B>(newline_doc(Seq::empty()), true) == (
            newline_doc(Seq::empty()),
            None::<Seq<char>>,
        ),
{
    reveal_strlit("ab");
    reveal_strlit("中");
    reveal_strlit("\n");
    reveal_strlit("ab中");
    reveal_strlit("\nab中");
    let empty = Seq::<Option<char>>::empty();
    let d0 = newline_doc(empty);
    assert(well_formed(empty));
    lemma_newline_doc(empty);
    let (t1, t2, t3) = (cells("ab"@), cells("ab中"@), cells("\nab中"@));
    lemma_cells_well_formed("ab"@);
    lemma_cells_well_formed("ab中"@);
    lemma_cells_well_formed("\nab中"@);
    lemma_cells_concat("ab"@, "中"@);
    lemma_cells_concat("\n"@, "ab中"@);
    assert("ab"@ + "中"@ =~= "ab中"@);
    assert("\n"@ + "ab中"@ =~= "\nab中"@);
    lemma_ascii_cells("ab"@);
    lemma_ascii_cells("\n"@);
    assert(t1.len() == 2);
    let tail = cells("中"@);
    assert("中"@.drop_last() =~= Seq::empty());
    assert(cells("中"@.drop_last()) =~= Seq::empty());
    assert(tail =~= char_cells('中'));
    assert(tail.len() == 3);
    B::edited_exact(d0, 0, 0, "ab"@);
    assert(splice(empty, 0, 0, t1) =~= t1);
    let d1 = newline_doc(t1);
    lemma_starts_up_to(t1, t1.len() as int);
    lemma_newline_doc(t1);
    lemma_holds("ab"@);
    B::edited_exact(d1, d1.len(), d1.len(), "中"@);
    assert(splice(t1, 2, 2, tail) =~= t2);
    let d2 = newline_doc(t2);
    lemma_starts_up_to(t2, t2.len() as int);
    lemma_newline_doc(t2);
    lemma_holds("ab中"@);
    B::edited_exact(d2, 0, 0, "\n"@);
    assert(splice(t2, 0, 0, cells("\n"@)) =~= t3);
    let d3 = newline_doc(t3);
    lemma_starts_up_to(t3, t3.len() as int);
    lemma_newline_doc(t3);
    lemma_holds("\nab中"@);
    assert(t3 =~= cells("\n"@) + t1 + tail);
    assert(t3[0] == Some('\n') && t3[1] == Some('a') && t3[2] == Some('b') && t3[3] == Some('中')
        && t3[4] is None && t3[5] is None);
    assert(d3.starts =~= seq![0, 1]) by {
        reveal_with_fuel(starts_up_to, 8);
    }
    assert(d3.line_of(1) == 1) by {
        reveal_with_fuel(crate::doc::last_start, 3);
    }
    B::edited_exact(d3, 0, 1, Seq::empty());
    assert(cells(Seq::<char>::empty()) =~= empty);
    assert(splice(t3, 0, 1, empty) =~= t2);
    B::edited_exact(d2, 0, d2.len(), Seq::empty());
    assert(splice(t2, 0, t2.len() as int, empty) =~= empty);
}

/// ASCII characters take up one cell each.
proof fn lemma_ascii_cells(s: Seq<char>)
    requires
        forall|i: int| 0 <= i < s.len() ==> (#[trigger] s[i] as u32) < 0x80,
    ensures
        cells(s) == s.map_values(|c: char| Some(c)),
    decreases s.len(),
{
    if s.len() > 0 {
        lemma_ascii_cells(s.drop_last());
        assert(s[s.len() - 1] == s.last());
        assert(cells(s) =~= s.map_values(|c: char| Some(c)));
    } else {
        assert(cells(s) =~= s.map_values(|c: char| Some(c)));
    }
}

/// A host without side effects, for where the engine should only drive a
/// buffer.
pub struct TckHost {
    /// Everything that the engine told this host.
    pub told: Ghost<Calls>,
}

impl Default for TckHost {
    fn default() -> (h: Self)
        ensures
            h.told@ == Seq::<HostCall>::empty(),
    {
        TckHost { told: Ghost(Seq::empty()) }
    }
}

impl VimHost for TckHost {
    open spec fn told(&self) -> Calls {
        self.told@
    }

    open spec fn serves(&self, before: &Self, calls: Calls) -> bool {
        all_declined(calls)
    }

    proof fn serves_nothing(&self) {
    }

    open spec fn seen_lines(&self) -> (usize, usize) {
        (0, 24)
    }

    open spec fn clip(&self) -> Option<Seq<char>> {
        None
    }

    fn viewport(&self) -> (r: (usize, usize)) {
        (0, 24)
    }

    fn scroll_to_line(&mut self, line: usize) {
        proof {
            self.told@ = self.told@.push(HostCall::Scroll(line as int));
        }
    }

    fn scroll_to_line_anchored(&mut self, line: usize, anchor: ScrollAnchor) {
        proof {
            self.told@ = self.told@.push(HostCall::ScrollAnchored(line as int, anchor));
        }
    }

    fn clipboard_write(&mut self, text: &str) {
        proof {
            self.told@ = self.told@.push(HostCall::Copy(text@));
        }
    }

    fn clipboard_read(&self) -> (r: Option<String>) {
        None
    }

    fn set_search_highlights(&mut self, matches: &[Range<usize>], current: Option<Range<usize>>) {
        proof {
            self.told@ = self.told@.push(HostCall::Highlights(pairs(matches@), opt_pair(current)));
        }
    }

    fn begin_undo_group<B: VimBuffer>(&mut self, buf: &B, id: u64, cursor_offset: usize) {
        proof {
            self.told@ = self.told@.push(HostCall::BeginGroup(id, cursor_offset, buf.doc()));
        }
    }

    fn undo<B: VimBufferMut>(&mut self, buf: &mut B) -> (r: Option<usize>)
        ensures
            r is None,
            *final(buf) == *old(buf),
    {
        proof {
            self.told@ = self.told@.push(HostCall::Undo(asked(*old(buf), None, *old(buf))));
        }
        None
    }

    fn redo<B: VimBufferMut>(&mut self, buf: &mut B) -> (r: Option<usize>)
        ensures
            r is None,
            *final(buf) == *old(buf),
    {
        proof {
            self.told@ = self.told@.push(HostCall::Redo(asked(*old(buf), None, *old(buf))));
        }
        None
    }

    fn changed(&mut self) {
        proof {
            self.told@ = self.told@.push(HostCall::Changed);
        }
    }

    fn bell(&mut self) {
        proof {
            self.told@ = self.told@.push(HostCall::Bell);
        }
    }

    fn save<B: VimBuffer>(&mut self, buf: &B) {
        proof {
            self.told@ = self.told@.push(HostCall::Save(buf.doc()));
        }
    }

    fn request_close_hinted(&mut self, force: bool) {
        proof {
            self.told@ = self.told@.push(HostCall::Close(force));
        }
    }

    fn status_message(&mut self, message: &str) {
        proof {
            self.told@ = self.told@.push(HostCall::Status(message@));
        }
    }

    fn dispatch_host_action_hinted(&mut self, id: &str, strict: bool) {
        proof {
            self.told@ = self.told@.push(HostCall::Action(id@, strict));
        }
    }
}

} // verus!
