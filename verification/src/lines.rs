//! A buffer held line by line.
use crate::buffer::{VimBuffer, VimBufferMut};
use crate::cells::{
    boundary, cells, char_cells, chars_in, char_len, lemma_cells_concat, lemma_cells_well_formed,
    lemma_chars_in_cells, lemma_chars_in_concat, well_formed,
};
use crate::doc::{last_start, max, min, splice, Doc};
use crate::shifting::lemma_newline_blanks;
use crate::state::texts_of;
use crate::strs::{byte_len, chars_of, lemma_split_at, split_at, split_chars, string_of, texts};
use crate::text::{
    cells_of, char_before, char_units, copy_out, floor_at, floor_in, lemma_cells_of_chars,
    lemma_floor_in, lemma_last_start_is, lemma_range_well_formed, lemma_sound, lemma_units_before,
    lemma_units_monotone, lemma_units_within, newline_doc, push_text, sound, starts_up_to,
    units_before,
};
use std::ops::Range;
use vstd::prelude::*;

verus! {

// ---- model ---------------------------------------------------------------------------------------

/// Lines joined by newlines.
pub open spec fn joined(lines: Seq<Seq<char>>) -> Seq<char>
    decreases lines.len(),
{
    if lines.len() == 0 {
        Seq::empty()
    } else if lines.len() == 1 {
        lines[0]
    } else {
        joined(lines.drop_last()).push('\n') + lines.last()
    }
}

/// Where each line starts in the joined text.
pub open spec fn row_starts(lines: Seq<Seq<char>>) -> Seq<int>
    decreases lines.len(),
{
    if lines.len() <= 1 {
        seq![0]
    } else {
        row_starts(lines.drop_last()).push(cells(joined(lines.drop_last())).len() as int + 1)
    }
}

pub open spec fn rows_doc(lines: Seq<Seq<char>>) -> Doc {
    Doc { cells: cells(joined(lines)), starts: row_starts(lines) }
}

/// The joined text is of a size that fits.
pub open spec fn rows_fit(lines: Seq<Seq<char>>) -> bool {
    cells(joined(lines)).len() <= usize::MAX
}

proof fn lemma_newline_cells()
    ensures
        cells(seq!['\n']) == seq![Some('\n')],
{
    let one = seq!['\n'];
    assert(one.drop_last() =~= Seq::empty());
    assert(cells(one.drop_last()) =~= Seq::empty());
    assert(cells(one) =~= seq![Some('\n')]);
}

/// One more line is a newline and the line.
proof fn lemma_joined_more(lines: Seq<Seq<char>>)
    requires
        lines.len() > 1,
    ensures
        cells(joined(lines)) == cells(joined(lines.drop_last())).push(Some('\n')) + cells(
            lines.last(),
        ),
        cells(joined(lines)).len() == cells(joined(lines.drop_last())).len() + 1 + cells(
            lines.last(),
        ).len(),
{
    let head = joined(lines.drop_last());
    lemma_newline_cells();
    assert(head.push('\n') =~= head + seq!['\n']);
    lemma_cells_concat(head, seq!['\n']);
    lemma_cells_concat(head.push('\n'), lines.last());
    assert(cells(head) + seq![Some('\n')] =~= cells(head).push(Some('\n')));
}

proof fn lemma_rows(lines: Seq<Seq<char>>)
    ensures
        row_starts(lines).len() == max(1, lines.len() as int),
        row_starts(lines)[0] == 0,
        forall|i: int|
            0 <= i < row_starts(lines).len() ==> 0 <= #[trigger] row_starts(lines)[i] <= cells(
                joined(lines),
            ).len() && boundary(cells(joined(lines)), row_starts(lines)[i]),
        forall|i: int, j: int|
            0 <= i < j < row_starts(lines).len() ==> #[trigger] row_starts(lines)[i]
                < #[trigger] row_starts(lines)[j],
    decreases lines.len(),
{
    let t = cells(joined(lines));
    lemma_cells_well_formed(joined(lines));
    if lines.len() > 1 {
        let front = lines.drop_last();
        let head = cells(joined(front));
        lemma_rows(front);
        lemma_joined_more(lines);
        lemma_cells_well_formed(lines.last());
        assert forall|i: int| 0 <= i < row_starts(lines).len() implies 0 <= #[trigger] row_starts(
            lines,
        )[i] <= t.len() && boundary(t, row_starts(lines)[i]) by {
            if i < row_starts(front).len() {
                let o = row_starts(front)[i];
                assert(row_starts(lines)[i] == o);
                if o < head.len() {
                    assert(t[o] == head[o]);
                } else {
                    assert(t[o] == Some('\n'));
                }
            } else {
                let o = head.len() as int + 1;
                if o < t.len() {
                    assert(t[o] == cells(lines.last())[0]);
                }
            }
        }
    }
}

proof fn lemma_rows_doc(lines: Seq<Seq<char>>)
    requires
        rows_fit(lines),
        lines.len() <= usize::MAX,
    ensures
        rows_doc(lines).wf(),
{
    lemma_rows(lines);
    lemma_cells_well_formed(joined(lines));
}

/// Where a line starts, and how long it is.
proof fn lemma_row(lines: Seq<Seq<char>>, i: int)
    requires
        0 <= i < lines.len(),
    ensures
        row_starts(lines)[i] == if i == 0 {
            0
        } else {
            cells(joined(lines.take(i))).len() + 1
        },
        cells(joined(lines.take(i + 1))).len() == row_starts(lines)[i] + cells(lines[i]).len(),
        i + 1 < lines.len() ==> row_starts(lines)[i + 1] == row_starts(lines)[i] + cells(
            lines[i],
        ).len() + 1,
    decreases lines.len(),
{
    lemma_rows(lines);
    if i + 1 < lines.len() {
        let front = lines.drop_last();
        lemma_rows(front);
        lemma_row(front, i);
        assert(front.take(i + 1) =~= lines.take(i + 1));
        assert(front.take(i) =~= lines.take(i));
        assert(row_starts(lines)[i] == row_starts(front)[i]);
        if i + 2 == lines.len() {
            assert(front.take(i + 1) =~= front);
        } else {
            assert(row_starts(lines)[i + 1] == row_starts(front)[i + 1]);
        }
    } else {
        assert(lines.take(i + 1) =~= lines);
        if i > 0 {
            assert(lines.take(i) =~= lines.drop_last());
            lemma_joined_more(lines);
        }
    }
}

/// The part of the text that a line takes up is the line.
proof fn lemma_row_cells(lines: Seq<Seq<char>>, i: int)
    requires
        0 <= i < lines.len(),
    ensures
        row_starts(lines)[i] + cells(lines[i]).len() <= cells(joined(lines)).len(),
        cells(joined(lines)).subrange(
            row_starts(lines)[i],
            row_starts(lines)[i] + cells(lines[i]).len(),
        ) == cells(lines[i]),
    decreases lines.len(),
{
    let t = cells(joined(lines));
    lemma_row(lines, i);
    lemma_rows(lines);
    if lines.len() == 1 {
        assert(t.subrange(0, t.len() as int) =~= t);
    } else {
        lemma_joined_more(lines);
        let front = lines.drop_last();
        let head = cells(joined(front));
        if i + 1 < lines.len() {
            lemma_row_cells(front, i);
            lemma_row(front, i);
            lemma_rows(front);
            let s = row_starts(front)[i];
            let e = s + cells(lines[i]).len();
            assert(row_starts(lines)[i] == s);
            assert(t.subrange(s, e) =~= head.subrange(s, e));
        } else {
            let s = head.len() as int + 1;
            assert(lines.take(i) =~= front);
            assert(t.subrange(s, t.len() as int) =~= cells(lines.last()));
        }
    }
}

/// Splitting a text at its newlines and joining the parts gives the text back,
/// and the parts start where its lines do.
pub proof fn splitting_and_joining_agree(s: Seq<char>)
    ensures
        joined(split_at(s, '\n')) == s,
        rows_doc(split_at(s, '\n')) == newline_doc(cells(s)),
    decreases s.len(),
{
    let parts = split_at(s, '\n');
    if s.len() == 0 {
        assert(joined(parts) =~= s);
        assert(cells(s) =~= Seq::empty());
    } else {
        let front = s.drop_last();
        let c = s.last();
        let before = split_at(front, '\n');
        splitting_and_joining_agree(front);
        lemma_split_at(front, '\n');
        assert(s =~= front.push(c));
        let t = cells(front);
        assert(cells(s) =~= t + char_cells(c));
        if c == '\n' {
            assert(parts.drop_last() =~= before);
            assert(joined(parts) =~= joined(before).push('\n') + Seq::<char>::empty());
            assert(joined(parts) =~= s);
            assert(cells(s)[t.len() as int] == Some('\n'));
            lemma_starts_prefix(t, char_cells(c), t.len() as int);
            assert(starts_up_to(cells(s), t.len() as int + 1) == starts_up_to(t, t.len() as int).push(
                t.len() as int + 1,
            ));
        } else {
            assert(parts.drop_last() =~= before.drop_last());
            if before.len() > 1 {
                assert(joined(before) == joined(before.drop_last()).push('\n') + before.last());
                assert(joined(parts) =~= joined(before.drop_last()).push('\n')
                    + before.last().push(c));
            } else {
                assert(joined(before) == before[0]);
                assert(joined(parts) == parts[0]);
            }
            assert(joined(parts) =~= s);
            assert(row_starts(parts) =~= row_starts(before));
            lemma_starts_prefix(t, char_cells(c), t.len() as int);
            lemma_starts_plain(cells(s), t.len() as int, cells(s).len() as int);
        }
    }
}

/// Starts depend on the text before them only.
proof fn lemma_starts_prefix(t: Seq<Option<char>>, more: Seq<Option<char>>, k: int)
    requires
        0 <= k <= t.len(),
    ensures
        starts_up_to(t + more, k) == starts_up_to(t, k),
    decreases k,
{
    if k > 0 {
        lemma_starts_prefix(t, more, k - 1);
        assert((t + more)[k - 1] == t[k - 1]);
    }
}

/// No line starts behind what holds no newline.
proof fn lemma_starts_plain(t: Seq<Option<char>>, a: int, b: int)
    requires
        0 <= a <= b <= t.len(),
        forall|k: int| a <= k < b ==> #[trigger] t[k] != Some('\n'),
    ensures
        starts_up_to(t, b) == starts_up_to(t, a),
    decreases b - a,
{
    if a < b {
        assert(t[b - 1] != Some('\n'));
        lemma_starts_plain(t, a, b - 1);
    }
}

// ---- rows and columns ----------------------------------------------------------------------------

/// The row and column of an offset, counted from row `i` on: `rem` bytes
/// behind its start.
pub open spec fn rc_from(lines: Seq<Seq<char>>, i: int, rem: int) -> (int, int)
    decreases lines.len() - i,
{
    if i >= lines.len() {
        (max(lines.len() - 1, 0), 0)
    } else if rem <= cells(lines[i]).len() {
        (i, chars_in(cells(lines[i]).take(rem)).len() as int)
    } else {
        rc_from(lines, i + 1, rem - cells(lines[i]).len() - 1)
    }
}

/// The row and column (in characters) of an offset; the last row's start when
/// it lies beyond the text.
pub open spec fn rc_of(lines: Seq<Seq<char>>, offset: int) -> (int, int) {
    rc_from(lines, 0, offset)
}

/// The offset of a row and column; a row's end when the column lies beyond
/// it, the end of the text when the row does.
pub open spec fn offset_of(lines: Seq<Seq<char>>, row: int, col: int) -> int {
    if 0 <= row < lines.len() {
        row_starts(lines)[row] + cells(lines[row].take(min(col, lines[row].len() as int))).len()
    } else {
        cells(joined(lines)).len() as int
    }
}

/// The characters that start in the first `rem` cells.
fn count_starts(t: &Vec<Option<char>>, rem: usize) -> (n: usize)
    requires
        rem <= t.len(),
    ensures
        n == chars_in(t@.take(rem as int)).len(),
{
    let mut n: usize = 0;
    let mut i: usize = 0;
    proof {
        assert(t@.take(0) =~= Seq::empty());
    }
    while i < rem
        invariant
            i <= rem <= t.len(),
            n <= i,
            n == chars_in(t@.take(i as int)).len(),
        decreases rem - i,
    {
        proof {
            assert(t@.take(i + 1).drop_last() =~= t@.take(i as int));
        }
        if t[i].is_some() {
            n = n + 1;
        }
        i = i + 1;
    }
    n
}

/// Row and character column of a UTF-8 byte offset.
pub fn offset_rc(lines: &[String], offset: usize) -> (r: (usize, usize))
    ensures
        (r.0 as int, r.1 as int) == rc_of(texts_of(lines@), offset as int),
{
    let ghost all = texts_of(lines@);
    let mut rem: usize = offset;
    let mut row: usize = 0;
    while row < lines.len()
        invariant
            row <= lines.len(),
            all == texts_of(lines@),
            rc_from(all, row as int, rem as int) == rc_of(all, offset as int),
        decreases lines.len() - row,
    {
        let t = cells_of(lines[row].as_str());
        proof {
            assert(all[row as int] == lines@[row as int]@);
        }
        if rem <= t.len() {
            return (row, count_starts(&t, rem));
        }
        rem = rem - t.len() - 1;
        row = row + 1;
    }
    (
        if lines.len() > 0 {
            lines.len() - 1
        } else {
            0
        },
        0,
    )
}

/// The bytes of the first `col` characters.
fn bytes_of_first(line: &str, col: usize) -> (n: usize)
    ensures
        n == cells(line@.take(min(col as int, line@.len() as int))).len(),
        n <= cells(line@).len(),
{
    let chars = chars_of(line);
    let stop: usize = if col <= chars.len() {
        col
    } else {
        chars.len()
    };
    proof {
        assert(line@ =~= line@.take(stop as int) + line@.skip(stop as int));
        lemma_cells_concat(line@.take(stop as int), line@.skip(stop as int));
        assert(chars@.subrange(0, stop as int) =~= line@.take(stop as int));
    }
    let head = string_of(&chars, 0, stop);
    byte_len(head.as_str())
}

/// The byte offset of a row and character column.
pub fn rc_offset(lines: &[String], row: usize, col: usize) -> (o: usize)
    requires
        rows_fit(texts_of(lines@)),
    ensures
        o == offset_of(texts_of(lines@), row as int, col as int),
{
    let ghost all = texts_of(lines@);
    let ghost size = cells(joined(all)).len();
    let mut off: usize = 0;
    let mut i: usize = 0;
    proof {
        lemma_rows(all);
    }
    while i < lines.len()
        invariant
            i <= lines.len(),
            i <= row,
            all == texts_of(lines@),
            size == cells(joined(all)).len(),
            size <= usize::MAX,
            i < lines.len() ==> off == row_starts(all)[i as int],
            i == lines.len() && i > 0 ==> off == size,
            i == lines.len() && i == 0 ==> off == 0,
        decreases lines.len() - i,
    {
        proof {
            assert(all[i as int] == lines@[i as int]@);
            lemma_row(all, i as int);
            lemma_row_cells(all, i as int);
            lemma_rows(all);
        }
        if i == row {
            return off + bytes_of_first(lines[i].as_str(), col);
        }
        let n = byte_len(lines[i].as_str());
        if i + 1 < lines.len() {
            proof {
                assert(row_starts(all)[i + 1] <= size);
            }
            off = off + n + 1;
        } else {
            proof {
                assert(all.take(i + 1) =~= all);
            }
            off = off + n;
        }
        i = i + 1;
    }
    off
}

/// Row, column and back: an offset between two characters of the text comes
/// back from its row and column.
pub proof fn rows_and_columns_round_trip(lines: Seq<Seq<char>>, o: int)
    requires
        lines.len() > 0,
        0 <= o <= cells(joined(lines)).len(),
        boundary(cells(joined(lines)), o),
    ensures
        offset_of(lines, rc_of(lines, o).0, rc_of(lines, o).1) == o,
{
    lemma_rows(lines);
    lemma_rc_from(lines, 0, o);
}

proof fn lemma_rc_from(lines: Seq<Seq<char>>, i: int, o: int)
    requires
        0 <= i < lines.len(),
        row_starts(lines)[i] <= o <= cells(joined(lines)).len(),
        boundary(cells(joined(lines)), o),
    ensures
        offset_of(
            lines,
            rc_from(lines, i, o - row_starts(lines)[i]).0,
            rc_from(lines, i, o - row_starts(lines)[i]).1,
        ) == o,
    decreases lines.len() - i,
{
    let t = cells(joined(lines));
    let s = row_starts(lines)[i];
    let line = lines[i];
    let u = cells(line);
    lemma_rows(lines);
    lemma_row(lines, i);
    lemma_row_cells(lines, i);
    if o - s <= u.len() {
        let rem = o - s;
        let head = u.take(rem);
        lemma_cells_well_formed(line);
        assert(boundary(u, rem)) by {
            if rem < u.len() {
                assert(t.subrange(s, s + u.len())[rem] == t[o]);
            }
        }
        assert(head =~= u.subrange(0, rem));
        lemma_range_well_formed(u, 0, rem);
        lemma_range_well_formed(u, rem, u.len() as int);
        lemma_cells_of_chars(head);
        lemma_chars_in_cells(line);
        let tail = u.subrange(rem, u.len() as int);
        assert(u =~= head + tail);
        lemma_chars_in_concat(head, tail);
        let n = chars_in(head).len() as int;
        assert(line.take(n) =~= chars_in(head));
        assert(n <= line.len());
    } else {
        if i + 1 < lines.len() {
            lemma_rc_from(lines, i + 1, o);
        } else {
            assert(lines.take(i + 1) =~= lines);
        }
    }
}

// ---- the buffer ----------------------------------------------------------------------------------

/// The lines of a text, and how often they were replaced.
pub struct SharedLines {
    lines: Vec<String>,
    version: u64,
}

impl SharedLines {
    /// The lines.
    pub closed spec fn rows(self) -> Seq<Seq<char>> {
        texts_of(self.lines@)
    }

    /// Changes whenever the lines are replaced.
    pub closed spec fn edition(self) -> u64 {
        self.version
    }

    #[verifier::type_invariant]
    spec fn fits(self) -> bool {
        rows_fit(texts_of(self.lines@))
    }

    proof fn lemma_fits(self)
        requires
            self.fits(),
        ensures
            rows_doc(self.rows()).wf(),
            self.rows().len() == self.lines.len(),
    {
        assert(self.lines@.len() == self.lines.len());
        lemma_rows_doc(self.rows());
    }

    pub fn get(&self) -> (v: &Vec<String>)
        ensures
            texts_of(v@) == self.rows(),
            rows_fit(texts_of(v@)),
    {
        proof {
            use_type_invariant(self);
        }
        &self.lines
    }

    pub fn version(&self) -> (n: u64)
        ensures
            n == self.edition(),
    {
        self.version
    }

    pub fn set(&mut self, lines: Vec<String>)
        requires
            rows_fit(texts_of(lines@)),
        ensures
            final(self).rows() == texts_of(lines@),
            final(self).edition() == old(self).edition().wrapping_add(1),
    {
        *self = SharedLines { lines, version: self.version.wrapping_add(1) };
    }
}

impl Default for SharedLines {
    fn default() -> (s: Self)
        ensures
            s.rows() == Seq::<Seq<char>>::empty(),
            s.edition() == 0,
    {
        let lines: Vec<String> = Vec::new();
        proof {
            assert(texts_of(lines@) =~= Seq::empty());
            assert(cells(joined(texts_of(lines@))) =~= Seq::empty());
        }
        SharedLines { lines, version: 0 }
    }
}

/// A buffer over a list of lines.
pub struct LinesBuf(pub SharedLines);

/// A text without its carriage returns.
pub open spec fn without_returns(s: Seq<char>) -> Seq<char>
    decreases s.len(),
{
    if s.len() == 0 {
        Seq::empty()
    } else if s.last() == '\r' {
        without_returns(s.drop_last())
    } else {
        without_returns(s.drop_last()).push(s.last())
    }
}

proof fn lemma_without_returns(s: Seq<char>)
    requires
        !s.contains('\r'),
    ensures
        without_returns(s) == s,
    decreases s.len(),
{
    if s.len() > 0 {
        assert(s[s.len() - 1] != '\r');
        assert(!s.drop_last().contains('\r')) by {
            if s.drop_last().contains('\r') {
                let i = choose|i: int| 0 <= i < s.len() - 1 && s.drop_last()[i] == '\r';
                assert(s[i] == '\r');
            }
        }
        lemma_without_returns(s.drop_last());
        assert(s =~= s.drop_last().push(s.last()));
    }
}

fn strip_returns(text: &str) -> (s: String)
    ensures
        s@ == without_returns(text@),
{
    let chars = chars_of(text);
    let mut s = String::new();
    let mut i: usize = 0;
    proof {
        assert(text@.take(0) =~= Seq::empty());
        assert(s@ =~= Seq::empty());
    }
    while i < chars.len()
        invariant
            i <= chars.len(),
            chars@ == text@,
            s@ == without_returns(text@.take(i as int)),
        decreases chars.len() - i,
    {
        proof {
            assert(text@.take(i + 1).drop_last() =~= text@.take(i as int));
        }
        if chars[i] != '\r' {
            s.push(chars[i]);
        }
        i = i + 1;
    }
    proof {
        assert(text@.take(i as int) =~= text@);
    }
    s
}

/// The cells of lines joined by newlines.
fn cells_of_rows(lines: &Vec<String>) -> (t: Vec<Option<char>>)
    ensures
        t@ == cells(joined(texts_of(lines@))),
        well_formed(t@),
{
    let ghost all = texts_of(lines@);
    let mut t: Vec<Option<char>> = Vec::new();
    let mut i: usize = 0;
    proof {
        assert(all.take(0) =~= Seq::empty());
        assert(cells(joined(all.take(0))) =~= Seq::empty());
    }
    while i < lines.len()
        invariant
            i <= lines.len(),
            all == texts_of(lines@),
            t@ == cells(joined(all.take(i as int))),
        decreases lines.len() - i,
    {
        let ghost before = t@;
        proof {
            assert(all[i as int] == lines@[i as int]@);
            assert(all.take(i + 1).drop_last() =~= all.take(i as int));
            if i > 0 {
                lemma_joined_more(all.take(i + 1));
            } else {
                assert(before =~= Seq::empty());
            }
        }
        if i > 0 {
            t.push(Some('\n'));
        }
        push_text(&mut t, lines[i].as_str());
        i = i + 1;
        proof {
            assert(t@ =~= cells(joined(all.take(i as int))));
        }
    }
    proof {
        assert(all.take(i as int) =~= all);
        lemma_cells_well_formed(joined(all));
    }
    t
}

/// A text as lines.
pub(crate) fn rows_of(s: &str) -> (v: Vec<String>)
    ensures
        texts_of(v@) == split_at(s@, '\n'),
        rows_fit(texts_of(v@)),
        v.len() > 0,
{
    let parts = split_chars(&chars_of(s), '\n');
    let mut v: Vec<String> = Vec::new();
    let mut i: usize = 0;
    while i < parts.len()
        invariant
            i <= parts.len(),
            texts_of(v@) == texts(parts@).take(i as int),
        decreases parts.len() - i,
    {
        let ghost before = v@;
        let line = string_of(&parts[i], 0, parts[i].len());
        proof {
            assert(parts@[i as int]@.subrange(0, parts@[i as int].len() as int)
                =~= parts@[i as int]@);
        }
        let ghost one = line@;
        v.push(line);
        proof {
            assert(texts_of(v@) =~= texts_of(before).push(one));
            assert(texts(parts@).take(i + 1) =~= texts(parts@).take(i as int).push(one));
        }
        i = i + 1;
    }
    let size = byte_len(s);
    proof {
        assert(texts(parts@).take(i as int) =~= texts(parts@));
        splitting_and_joining_agree(s@);
        assert(texts_of(v@).len() == v@.len());
    }
    v
}

/// A replacement between two boundaries, as text.
proof fn lemma_splice_text(t: Seq<Option<char>>, a: int, b: int, with: Seq<char>)
    requires
        well_formed(t),
        0 <= a <= b <= t.len(),
        boundary(t, a),
        boundary(t, b),
    ensures
        cells(chars_in(t.subrange(0, a)) + with + chars_in(t.subrange(b, t.len() as int)))
            == splice(t, a, b, cells(with)),
{
    let head = t.subrange(0, a);
    let tail = t.subrange(b, t.len() as int);
    lemma_range_well_formed(t, 0, a);
    lemma_range_well_formed(t, b, t.len() as int);
    lemma_cells_of_chars(head);
    lemma_cells_of_chars(tail);
    lemma_cells_concat(chars_in(head), with);
    lemma_cells_concat(chars_in(head) + with, chars_in(tail));
    assert(head =~= t.take(a));
    assert(tail =~= t.skip(b));
}

impl LinesBuf {
    /// The lines.
    pub open spec fn rows(self) -> Seq<Seq<char>> {
        self.0.rows()
    }

    proof fn lemma_doc(self)
        requires
            rows_doc(self.rows()).wf(),
        ensures
            self.doc() == rows_doc(self.rows()),
    {
    }

    pub(crate) fn cells(&self) -> (t: Vec<Option<char>>)
        ensures
            t@ == self.doc().cells,
            well_formed(t@),
            self.doc() == rows_doc(self.rows()),
            self.doc().wf(),
    {
        let t = cells_of_rows(self.0.get());
        proof {
            use_type_invariant(&self.0);
            self.0.lemma_fits();
            self.lemma_doc();
        }
        t
    }

    /// The text with `[a, b)` replaced.
    pub(crate) fn put(&mut self, t: &Vec<Option<char>>, a: usize, b: usize, with: &str)
        requires
            well_formed(t@),
            a <= b <= t.len(),
            boundary(t@, a as int),
            boundary(t@, b as int),
        ensures
            final(self).doc() == newline_doc(splice(t@, a as int, b as int, cells(with@))),
            final(self).rows() == split_at(
                chars_in(splice(t@, a as int, b as int, cells(with@))),
                '\n',
            ),
            final(self).0.edition() == old(self).0.edition().wrapping_add(1),
    {
        let mut s = copy_out(t, 0, a);
        s.push_str(with);
        s.push_str(copy_out(t, b, t.len()).as_str());
        proof {
            lemma_splice_text(t@, a as int, b as int, with@);
            splitting_and_joining_agree(s@);
            lemma_chars_in_cells(s@);
        }
        self.0.set(rows_of(s.as_str()));
        proof {
            use_type_invariant(&self.0);
            self.0.lemma_fits();
            self.lemma_doc();
        }
    }

    /// The UTF-16 offset of a byte offset; 0 inside a character.
    pub fn byte_to_utf16(&self, byte: usize) -> (u: usize)
        ensures
            u == {
                let d = self.doc();
                let b = min(byte as int, d.len());
                if d.at_boundary(b) {
                    units_before(d.cells, b)
                } else {
                    0
                }
            },
    {
        let t = self.cells();
        let b: usize = if byte <= t.len() {
            byte
        } else {
            t.len()
        };
        if b < t.len() && t[b].is_none() {
            return 0;
        }
        units_up_to(&t, b)
    }

    /// The byte offset of the first character at or behind a UTF-16 offset.
    pub fn utf16_to_byte(&self, u: usize) -> (b: usize)
        ensures
            b == byte_at_units(self.doc().cells, u as int, 0),
    {
        let t = self.cells();
        let mut sum: usize = 0;
        let mut o: usize = 0;
        while o < t.len()
            invariant
                o <= t.len(),
                well_formed(t@),
                t@ == self.doc().cells,
                boundary(t@, o as int),
                sum == units_before(t@, o as int),
                sum <= o,
                byte_at_units(t@, u as int, o as int) == byte_at_units(t@, u as int, 0),
            decreases t.len() - o,
        {
            proof {
                assert(crate::cells::char_fits(t@, o as int));
            }
            if sum >= u {
                return o;
            }
            match t[o] {
                Some(c) => {
                    let n = char_len(c);
                    proof {
                        lemma_units_within(t@, o as int, o + n);
                        lemma_units_before(t@, o + n);
                        lemma_byte_at_units_step(t@, u as int, o as int, o + n);
                    }
                    sum = sum + char_units(c);
                    o = o + n;
                },
                None => {
                    return t.len();
                },
            }
        }
        t.len()
    }
}

/// The first boundary from `o` on with at least `u` code units before it.
pub open spec fn byte_at_units(t: Seq<Option<char>>, u: int, o: int) -> int
    decreases t.len() - o,
{
    if o >= t.len() {
        t.len() as int
    } else if o >= 0 && t[o] is Some && units_before(t, o) >= u {
        o
    } else {
        byte_at_units(t, u, o + 1)
    }
}

proof fn lemma_byte_at_units_step(t: Seq<Option<char>>, u: int, o: int, n: int)
    requires
        0 <= o < n <= t.len(),
        units_before(t, o) < u,
        forall|k: int| o < k < n ==> #[trigger] t[k] is None,
    ensures
        byte_at_units(t, u, o) == byte_at_units(t, u, n),
    decreases n - o,
{
    if o + 1 < n {
        lemma_byte_at_units_skip(t, u, o + 1, n);
    }
}

proof fn lemma_byte_at_units_skip(t: Seq<Option<char>>, u: int, o: int, n: int)
    requires
        0 <= o <= n <= t.len(),
        forall|k: int| o <= k < n ==> #[trigger] t[k] is None,
    ensures
        byte_at_units(t, u, o) == byte_at_units(t, u, n),
    decreases n - o,
{
    if o < n {
        assert(t[o] is None);
        lemma_byte_at_units_skip(t, u, o + 1, n);
    }
}

fn units_up_to(t: &Vec<Option<char>>, b: usize) -> (u: usize)
    requires
        well_formed(t@),
        b <= t.len(),
        boundary(t@, b as int),
    ensures
        u == units_before(t@, b as int),
{
    let mut sum: usize = 0;
    let mut o: usize = 0;
    proof {
        lemma_units_before(t@, b as int);
    }
    while o < b
        invariant
            o <= b <= t.len(),
            well_formed(t@),
            boundary(t@, b as int),
            sum == units_before(t@, o as int),
            units_before(t@, b as int) <= b,
        decreases b - o,
    {
        proof {
            lemma_units_monotone(t@, o + 1, b as int);
        }
        if let Some(c) = t[o] {
            sum = sum + char_units(c);
        }
        o = o + 1;
    }
    sum
}

/// UTF-16 offsets and byte offsets of the boundaries of a text correspond.
pub proof fn utf16_offsets_round_trip(t: Seq<Option<char>>, b: int)
    requires
        0 <= b <= t.len(),
        boundary(t, b),
    ensures
        byte_at_units(t, units_before(t, b), 0) == b,
{
    lemma_round_trip_from(t, b, 0);
}

proof fn lemma_round_trip_from(t: Seq<Option<char>>, b: int, o: int)
    requires
        0 <= o <= b <= t.len(),
        boundary(t, b),
    ensures
        byte_at_units(t, units_before(t, b), o) == b,
    decreases b - o,
{
    if o < b {
        lemma_units_monotone(t, o, b);
        lemma_round_trip_from(t, b, o + 1);
    }
}

impl VimBuffer for LinesBuf {
    open spec fn doc(&self) -> Doc {
        sound(rows_doc(self.rows()))
    }

    proof fn doc_wf(&self) {
        lemma_sound(rows_doc(self.rows()));
    }

    fn len(&self) -> (n: usize) {
        self.cells().len()
    }

    fn line_count(&self) -> (n: usize) {
        let n = self.0.get().len();
        proof {
            use_type_invariant(&self.0);
            self.0.lemma_fits();
            self.lemma_doc();
            lemma_rows(self.rows());
        }
        if n > 0 {
            n
        } else {
            1
        }
    }

    fn char_at(&self, offset: usize) -> (c: Option<char>) {
        let t = self.cells();
        if offset < t.len() {
            t[offset]
        } else {
            None
        }
    }

    fn prev_char_offset(&self, offset: usize) -> (p: Option<usize>) {
        char_before(&self.cells(), offset)
    }

    fn line_range(&self, line: usize) -> (r: Range<usize>) {
        let ghost all = self.rows();
        let lines = self.0.get();
        let n = self.len();
        proof {
            use_type_invariant(&self.0);
            self.0.lemma_fits();
            self.lemma_doc();
            lemma_rows(all);
            if line < all.len() {
                lemma_row(all, line as int);
                assert(all[line as int].take(0) =~= Seq::empty());
                assert(cells(Seq::<char>::empty()) =~= Seq::empty());
                lemma_row_cells(all, line as int);
                if line + 1 < all.len() {
                    assert(row_starts(all)[line + 1] <= self.doc().len());
                }
            }
        }
        if line >= lines.len() {
            if line == 0 {
                proof {
                    assert(cells(joined(all)) =~= Seq::empty());
                }
            }
            return n..n;
        }
        let start = rc_offset(lines.as_slice(), line, 0);
        if line + 1 < lines.len() {
            start..start + byte_len(lines[line].as_str()) + 1
        } else {
            start..n
        }
    }

    fn offset_to_line(&self, offset: usize) -> (l: usize) {
        let ghost all = self.rows();
        proof {
            use_type_invariant(&self.0);
            self.0.lemma_fits();
            self.lemma_doc();
            lemma_row_of(all, offset as int);
        }
        offset_rc(self.0.get().as_slice(), offset).0
    }

    /// Nothing but where the range is one of whole characters.
    open spec fn piece(d: Doc, a: int, b: int) -> Seq<char> {
        if d.is_range(a, b) {
            d.slice(a, b)
        } else {
            Seq::empty()
        }
    }

    proof fn piece_exact(d: Doc, a: int, b: int) {
    }

    fn slice(&self, range: Range<usize>) -> (s: String) {
        let t = self.cells();
        let (a, b) = (range.start, range.end);
        proof {
            let d = self.doc();
            assert(Self::piece(d, a as int, b as int) == if d.is_range(a as int, b as int) {
                d.slice(a as int, b as int)
            } else {
                Seq::empty()
            });
        }
        if a <= b && b <= t.len() && (a == t.len() || t[a].is_some()) && (b == t.len()
            || t[b].is_some()) {
            copy_out(&t, a, b)
        } else {
            let none = String::new();
            proof {
                assert(none@ =~= Seq::empty());
            }
            none
        }
    }
}

/// The row of an offset is its line.
proof fn lemma_row_of(lines: Seq<Seq<char>>, o: int)
    requires
        0 <= o,
    ensures
        rc_of(lines, o).0 == last_start(row_starts(lines), o, row_starts(lines).len() as int),
{
    lemma_rows(lines);
    if lines.len() > 0 {
        lemma_row_of_from(lines, 0, o);
    }
}

proof fn lemma_row_of_from(lines: Seq<Seq<char>>, i: int, o: int)
    requires
        0 <= i < lines.len(),
        row_starts(lines)[i] <= o,
    ensures
        rc_from(lines, i, o - row_starts(lines)[i]).0 == last_start(
            row_starts(lines),
            o,
            row_starts(lines).len() as int,
        ),
    decreases lines.len() - i,
{
    lemma_rows(lines);
    lemma_row(lines, i);
    let s = row_starts(lines)[i];
    if o - s <= cells(lines[i]).len() {
        lemma_last_start_is(row_starts(lines), o, row_starts(lines).len() as int, i);
    } else if i + 1 < lines.len() {
        lemma_row_of_from(lines, i + 1, o);
    } else {
        assert(rc_from(lines, i + 1, o - s - cells(lines[i]).len() - 1) == (i, 0int));
        lemma_last_start_is(row_starts(lines), o, row_starts(lines).len() as int, i);
    }
}

impl VimBufferMut for LinesBuf {
    open spec fn editable(&self) -> bool {
        true
    }

    open spec fn edition(&self) -> u64 {
        self.0.edition()
    }

    open spec fn next_edition(n: u64) -> u64 {
        n.wrapping_add(1)
    }

    open spec fn doc_of(t: Seq<Option<char>>) -> Doc {
        newline_doc(t)
    }

    /// An end inside a character counts as the character's start, one beyond
    /// the text as its end; text inserted beyond it goes before the last line.
    /// Carriage returns are dropped.
    open spec fn edited(d: Doc, a: int, b: int, with: Seq<char>) -> Doc {
        let s = if a > d.len() && a == b {
            d.line_start(d.line_count() - 1)
        } else {
            floor_in(d.cells, min(a, d.len()))
        };
        let e = max(s, floor_in(d.cells, min(b, d.len())));
        newline_doc(
            splice(
                d.cells,
                s,
                if a == b {
                    s
                } else {
                    e
                },
                cells(without_returns(with)),
            ),
        )
    }

    open spec fn takes(with: Seq<char>) -> bool {
        !with.contains('\r')
    }

    proof fn edited_exact(d: Doc, a: int, b: int, with: Seq<char>) {
        lemma_floor_in(d.cells, a);
        lemma_floor_in(d.cells, b);
        if with.len() > 0 {
            lemma_without_returns(with);
        }
        assert(without_returns(with) =~= with);
    }

    proof fn blanks_join_their_line(d: Doc, i: int, blanks: Seq<char>) {
        lemma_newline_blanks(d, i, blanks);
    }

    fn insert_text(&mut self, offset: usize, text: &str) {
        let t = self.cells();
        proof {
            self.doc().lemma_line_bounds(self.doc().line_count() - 1);
        }
        let at = if offset > t.len() {
            let last = self.line_count() - 1;
            VimBuffer::line_start(self, last)
        } else {
            floor_at(&t, offset)
        };
        let clean = strip_returns(text);
        self.put(&t, at, at, clean.as_str());
    }

    fn delete_range(&mut self, range: Range<usize>) {
        let t = self.cells();
        let ghost d = self.doc();
        let n = t.len();
        proof {
            d.lemma_line_bounds(d.line_count() - 1);
            lemma_floor_in(t@, min(range.start as int, n as int));
            lemma_floor_in(t@, min(range.end as int, n as int));
            assert(without_returns(Seq::empty()) =~= Seq::empty());
            reveal_strlit("");
            assert(""@ =~= Seq::empty());
        }
        let a = floor_at(
            &t,
            if range.start <= n {
                range.start
            } else {
                n
            },
        );
        let b = floor_at(
            &t,
            if range.end <= n {
                range.end
            } else {
                n
            },
        );
        let end = if range.start == range.end || b < a {
            a
        } else {
            b
        };
        proof {
            if range.start > n && range.start == range.end {
                let at = d.line_start(d.line_count() - 1);
                assert(splice(t@, a as int, a as int, cells(Seq::<char>::empty())) =~= t@);
                assert(splice(t@, at, at, cells(Seq::<char>::empty())) =~= t@);
            }
        }
        self.put(&t, a, end, "");
    }
}

} // verus!
