//! A buffer over a rope.
use crate::buffer::{VimBuffer, VimBufferMut};
use crate::cells::{
    boundary, cells, char_cells, char_fits, chars_in, char_len, lemma_cells_concat,
    lemma_cells_well_formed, lemma_chars_in_cells, lemma_chars_in_concat, well_formed, width,
};
use crate::doc::{last_start, min, splice, Doc};
use crate::shifting::lemma_rope_blanks;
use crate::text::{
    byte_of_units, floor_in, lemma_byte_of_units, lemma_cells_of_chars, lemma_floor_in, lemma_last_start_is, lemma_range_well_formed,
    lemma_sound, sound, units, units_before,
};
use ropey::Rope;
use std::ops::Range;
use vstd::prelude::*;

verus! {

// ---- ropey ---------------------------------------------------------------------------------------

/// `ropey::Rope`.
#[verifier::external_type_specification]
#[verifier::external_body]
pub struct ExRope(ropey::Rope);

/// The text that a rope holds.
pub uninterp spec fn rope_text(rope: Rope) -> Seq<char>;

/// A line ends right before byte `k` of a text. The line breaks are those of
/// Unicode: LF, VT, FF, CR, CRLF, NEL, LS and PS.
pub open spec fn line_ends_at(t: Seq<Option<char>>, k: int) -> bool {
    ||| t[k - 1] == Some('\n')
    ||| t[k - 1] == Some('\u{b}')
    ||| t[k - 1] == Some('\u{c}')
    ||| t[k - 1] == Some('\r') && !(k < t.len() && t[k] == Some('\n'))
    ||| k >= 2 && t[k - 2] == Some('\u{85}')
    ||| k >= 3 && (t[k - 3] == Some('\u{2028}') || t[k - 3] == Some('\u{2029}'))
}

/// Where lines start, up to `k`: at the beginning and behind each line break.
pub open spec fn rope_starts(t: Seq<Option<char>>, k: int) -> Seq<int>
    decreases k,
{
    if k <= 0 {
        seq![0]
    } else if line_ends_at(t, k) {
        rope_starts(t, k - 1).push(k)
    } else {
        rope_starts(t, k - 1)
    }
}

/// The lines of a text: where each starts.
pub open spec fn rope_lines(t: Seq<Option<char>>) -> Seq<int> {
    rope_starts(t, t.len() as int)
}

/// The UTF-16 code units of a text.
pub open spec fn text_units(s: Seq<char>) -> int
    decreases s.len(),
{
    if s.len() == 0 {
        0
    } else {
        text_units(s.drop_last()) + units(s.last())
    }
}

/// `ropey::Rope::from_str`: the rope holds the text.
#[verifier::external_body]
fn rope_from(text: &str) -> (r: Rope)
    ensures
        rope_text(r) == text@,
{
    Rope::from_str(text)
}

/// `ropey::Rope::len_bytes`: the length of the text in UTF-8.
#[verifier::external_body]
fn rope_len_bytes(rope: &Rope) -> (n: usize)
    ensures
        n == cells(rope_text(*rope)).len(),
{
    rope.len_bytes()
}

/// `ropey::Rope::len_chars`: the number of characters.
#[verifier::external_body]
fn rope_len_chars(rope: &Rope) -> (n: usize)
    ensures
        n == rope_text(*rope).len(),
{
    rope.len_chars()
}

/// `ropey::Rope::len_lines`: one line more than there are line breaks.
#[verifier::external_body]
fn rope_len_lines(rope: &Rope) -> (n: usize)
    ensures
        n == rope_lines(cells(rope_text(*rope))).len(),
{
    rope.len_lines()
}

/// `ropey::Rope::len_utf16_cu`: the length of the text in UTF-16.
#[verifier::external_body]
fn rope_len_utf16(rope: &Rope) -> (n: usize)
    ensures
        n == text_units(rope_text(*rope)),
{
    rope.len_utf16_cu()
}

/// `ropey::Rope::get_char`: the character at an index, if there is one.
#[verifier::external_body]
fn rope_char(rope: &Rope, index: usize) -> (c: Option<char>)
    ensures
        c == if index < rope_text(*rope).len() {
            Some(rope_text(*rope)[index as int])
        } else {
            None
        },
{
    rope.get_char(index)
}

/// `ropey::Rope::byte_to_char`: the index of the character that the byte
/// belongs to; one past the last for the end of the text.
#[verifier::external_body]
fn rope_byte_to_char(rope: &Rope, byte: usize) -> (index: usize)
    requires
        byte <= cells(rope_text(*rope)).len(),
    ensures
        index == chars_in(
            cells(rope_text(*rope)).take(floor_in(cells(rope_text(*rope)), byte as int)),
        ).len(),
{
    rope.byte_to_char(byte)
}

/// `ropey::Rope::char_to_byte`: the byte that a character starts at.
#[verifier::external_body]
fn rope_char_to_byte(rope: &Rope, index: usize) -> (byte: usize)
    requires
        index <= rope_text(*rope).len(),
    ensures
        byte == cells(rope_text(*rope).take(index as int)).len(),
{
    rope.char_to_byte(index)
}

/// `ropey::Rope::line_to_byte`: the byte that a line starts at; the end of
/// the text for one past the last line.
#[verifier::external_body]
fn rope_line_to_byte(rope: &Rope, line: usize) -> (byte: usize)
    requires
        line <= rope_lines(cells(rope_text(*rope))).len(),
    ensures
        byte == if line < rope_lines(cells(rope_text(*rope))).len() {
            rope_lines(cells(rope_text(*rope)))[line as int]
        } else {
            cells(rope_text(*rope)).len() as int
        },
{
    rope.line_to_byte(line)
}

/// `ropey::Rope::byte_to_line`: the last line that starts at or before the
/// byte.
#[verifier::external_body]
fn rope_byte_to_line(rope: &Rope, byte: usize) -> (line: usize)
    requires
        byte <= cells(rope_text(*rope)).len(),
    ensures
        line == last_start(
            rope_lines(cells(rope_text(*rope))),
            byte as int,
            rope_lines(cells(rope_text(*rope))).len() as int,
        ),
{
    rope.byte_to_line(byte)
}

/// `ropey::Rope::slice`, copied out: the characters between two indices.
#[verifier::external_body]
fn rope_slice(rope: &Rope, from: usize, to: usize) -> (s: String)
    requires
        from <= to <= rope_text(*rope).len(),
    ensures
        s@ == rope_text(*rope).subrange(from as int, to as int),
{
    rope.slice(from..to).to_string()
}

/// `ropey::Rope::insert`: the text goes before the character at the index.
#[verifier::external_body]
fn rope_insert(rope: &mut Rope, index: usize, text: &str)
    requires
        index <= rope_text(*old(rope)).len(),
    ensures
        rope_text(*final(rope)) == rope_text(*old(rope)).take(index as int) + text@ + rope_text(
            *old(rope),
        ).skip(index as int),
{
    rope.insert(index, text)
}

/// `ropey::Rope::remove`: the characters between two indices go.
#[verifier::external_body]
fn rope_remove(rope: &mut Rope, from: usize, to: usize)
    requires
        from <= to <= rope_text(*old(rope)).len(),
    ensures
        rope_text(*final(rope)) == rope_text(*old(rope)).take(from as int) + rope_text(
            *old(rope),
        ).skip(to as int),
{
    rope.remove(from..to)
}

/// `ropey::Rope::char_to_utf16_cu`: the code units before a character.
#[verifier::external_body]
fn rope_char_to_utf16(rope: &Rope, index: usize) -> (u: usize)
    requires
        index <= rope_text(*rope).len(),
    ensures
        u == text_units(rope_text(*rope).take(index as int)),
{
    rope.char_to_utf16_cu(index)
}

/// `ropey::Rope::utf16_cu_to_char`: the index of the character that the code
/// unit belongs to; one past the last for the end of the text.
#[verifier::external_body]
fn rope_utf16_to_char(rope: &Rope, u: usize) -> (index: usize)
    requires
        u <= text_units(rope_text(*rope)),
    ensures
        index <= rope_text(*rope).len(),
        text_units(rope_text(*rope).take(index as int)) <= u,
        index < rope_text(*rope).len() ==> u < text_units(rope_text(*rope).take(index + 1)),
{
    rope.utf16_cu_to_char(u)
}

// ---- model ---------------------------------------------------------------------------------------

/// The lines of a rope as the engine counts them: a trailing newline opens
/// none.
pub open spec fn rope_doc(t: Seq<Option<char>>) -> Doc {
    let all = rope_lines(t);
    Doc {
        cells: t,
        starts: if all.len() > 1 && t.len() > 0 && t.last() == Some('\n') {
            all.drop_last()
        } else {
            all
        },
    }
}

pub proof fn lemma_rope_starts(t: Seq<Option<char>>, k: int)
    requires
        well_formed(t),
        0 <= k <= t.len(),
    ensures
        1 <= rope_starts(t, k).len() <= k + 1,
        rope_starts(t, k)[0] == 0,
        forall|i: int|
            0 <= i < rope_starts(t, k).len() ==> 0 <= #[trigger] rope_starts(t, k)[i] <= k
                && boundary(t, rope_starts(t, k)[i]),
        forall|i: int, j: int|
            0 <= i < j < rope_starts(t, k).len() ==> #[trigger] rope_starts(t, k)[i]
                < #[trigger] rope_starts(t, k)[j],
    decreases k,
{
    if k > 0 {
        lemma_rope_starts(t, k - 1);
        assert(char_fits(t, k - 1));
        if k >= 2 {
            assert(char_fits(t, k - 2));
        }
        if k >= 3 {
            assert(char_fits(t, k - 3));
        }
    }
}

proof fn lemma_rope_doc(text: Seq<char>)
    requires
        cells(text).len() <= usize::MAX,
        rope_lines(cells(text)).len() <= usize::MAX,
    ensures
        rope_doc(cells(text)).wf(),
        rope_lines(cells(text)).len() > 1 && cells(text).len() > 0 && cells(text).last() == Some(
            '\n',
        ) ==> rope_lines(cells(text)).last() == cells(text).len(),
{
    let t = cells(text);
    lemma_cells_well_formed(text);
    lemma_rope_starts(t, t.len() as int);
    if t.len() > 0 && t.last() == Some('\n') {
        assert(line_ends_at(t, t.len() as int));
    }
}

/// Characters and bytes before a boundary.
proof fn lemma_index(text: Seq<char>, b: int)
    requires
        0 <= b <= cells(text).len(),
        boundary(cells(text), b),
    ensures
        chars_in(cells(text).take(b)).len() <= text.len(),
        text.take(chars_in(cells(text).take(b)).len() as int) == chars_in(cells(text).take(b)),
        cells(chars_in(cells(text).take(b))) == cells(text).take(b),
        b < cells(text).len() ==> chars_in(cells(text).take(b)).len() < text.len()
            && cells(text)[b] == Some(text[chars_in(cells(text).take(b)).len() as int]),
        b == cells(text).len() ==> chars_in(cells(text).take(b)).len() == text.len(),
        text.skip(chars_in(cells(text).take(b)).len() as int) == chars_in(cells(text).skip(b)),
        cells(chars_in(cells(text).skip(b))) == cells(text).skip(b),
{
    let t = cells(text);
    let (head, tail) = (t.take(b), t.skip(b));
    lemma_cells_well_formed(text);
    assert(head =~= t.subrange(0, b));
    assert(tail =~= t.subrange(b, t.len() as int));
    lemma_range_well_formed(t, 0, b);
    lemma_range_well_formed(t, b, t.len() as int);
    lemma_cells_of_chars(head);
    lemma_cells_of_chars(tail);
    lemma_chars_in_cells(text);
    assert(t =~= head + tail);
    lemma_chars_in_concat(head, tail);
    let k = chars_in(head).len() as int;
    assert(text.take(k) =~= chars_in(head));
    assert(text.skip(k) =~= chars_in(tail));
    if b < t.len() {
        let rest = chars_in(tail);
        assert(rest.len() > 0) by {
            if rest.len() == 0 {
                assert(cells(rest) =~= Seq::empty());
            }
        }
        let first = seq![rest[0]];
        let more = rest.skip(1);
        assert(rest =~= first + more);
        lemma_cells_concat(first, more);
        assert(first.drop_last() =~= Seq::empty());
        assert(cells(first.drop_last()) =~= Seq::empty());
        assert(cells(first) =~= char_cells(rest[0]));
        assert(tail[0] == Some(rest[0]));
        assert(t[b] == tail[0]);
        assert(text[k] == rest[0]);
    } else {
        assert(tail =~= Seq::empty());
        assert(head =~= t);
    }
}

/// Code units before a boundary.
proof fn lemma_text_units(text: Seq<char>)
    ensures
        text_units(text) == units_before(cells(text), cells(text).len() as int),
    decreases text.len(),
{
    if text.len() > 0 {
        let front = text.drop_last();
        let c = text.last();
        let t = cells(text);
        lemma_text_units(front);
        lemma_units_prefix(cells(front), char_cells(c), cells(front).len() as int);
        assert(t =~= cells(front) + char_cells(c));
        assert(t[cells(front).len() as int] == Some(c));
        assert forall|k: int| cells(front).len() < k < t.len() implies #[trigger] t[k] is None by {
            assert(t[k] == char_cells(c)[k - cells(front).len()]);
        }
        crate::text::lemma_units_within(t, cells(front).len() as int, t.len() as int);
    }
}

proof fn lemma_units_prefix(t: Seq<Option<char>>, more: Seq<Option<char>>, o: int)
    requires
        0 <= o <= t.len(),
    ensures
        units_before(t + more, o) == units_before(t, o),
    decreases o,
{
    if o > 0 {
        lemma_units_prefix(t, more, o - 1);
        assert((t + more)[o - 1] == t[o - 1]);
    }
}

// ---- the buffer ----------------------------------------------------------------------------------

/// A buffer over a rope.
pub struct RopeBuffer {
    rope: Rope,
}

impl RopeBuffer {
    /// The text.
    pub closed spec fn chars(self) -> Seq<char> {
        rope_text(self.rope)
    }

    pub fn new(text: &str) -> (b: Self)
        ensures
            b.chars() == text@,
            b.doc() == rope_doc(cells(text@)),
    {
        let b = RopeBuffer { rope: rope_from(text) };
        let measured = b.sizes();
        b
    }

    pub fn text(&self) -> (s: String)
        ensures
            s@ == self.chars(),
    {
        let n = rope_len_chars(&self.rope);
        proof {
            assert(self.chars().subrange(0, n as int) =~= self.chars());
        }
        rope_slice(&self.rope, 0, n)
    }

    /// The sizes of the rope: bytes, characters and lines.
    fn sizes(&self) -> (r: (usize, usize, usize))
        ensures
            r.0 == cells(self.chars()).len(),
            r.1 == self.chars().len(),
            r.2 == rope_lines(cells(self.chars())).len(),
            self.doc() == rope_doc(cells(self.chars())),
            self.doc().wf(),
            rope_lines(cells(self.chars())).len() > 1 && cells(self.chars()).len() > 0 && cells(
                self.chars(),
            ).last() == Some('\n') ==> rope_lines(cells(self.chars())).last() == r.0,
    {
        let r = (rope_len_bytes(&self.rope), rope_len_chars(&self.rope), rope_len_lines(&self.rope));
        proof {
            lemma_rope_doc(self.chars());
        }
        r
    }

    /// Line count with the engine's semantics: a trailing newline does not
    /// open a phantom final line.
    pub fn line_count_real(&self) -> (n: usize)
        ensures
            n == self.doc().line_count(),
    {
        let (bytes, chars, lines) = self.sizes();
        proof {
            let text = self.chars();
            lemma_cells_well_formed(text);
            if lines > 1 {
                lemma_rope_starts(cells(text), cells(text).len() as int);
                assert(text.len() > 0) by {
                    if text.len() == 0 {
                        assert(cells(text) =~= Seq::empty());
                    }
                }
                lemma_last_char(text);
            }
        }
        if lines > 1 {
            if let Some(c) = rope_char(&self.rope, chars - 1) {
                if c == '\n' {
                    return lines - 1;
                }
            }
        }
        lines
    }

    /// How many line breaks the text holds.
    pub fn line_breaks(&self) -> (n: usize)
        ensures
            n == rope_lines(cells(self.chars())).len() - 1,
    {
        let (_, _, lines) = self.sizes();
        proof {
            lemma_cells_well_formed(self.chars());
            lemma_rope_starts(cells(self.chars()), cells(self.chars()).len() as int);
        }
        lines - 1
    }

    // ---- UTF-16 helpers --------------------------------------------------------------------------

    /// The UTF-16 offset of a byte offset, rounded down to a character.
    pub fn byte_to_utf16(&self, byte: usize) -> (u: usize)
        ensures
            u == units_before(
                self.doc().cells,
                floor_in(self.doc().cells, min(byte as int, self.doc().len())),
            ),
    {
        let (bytes, _, _) = self.sizes();
        let ghost text = self.chars();
        let ghost t = cells(text);
        let at = if byte <= bytes {
            byte
        } else {
            bytes
        };
        proof {
            lemma_cells_well_formed(text);
            lemma_floor_in(t, at as int);
            let f = floor_in(t, at as int);
            lemma_index(text, f);
            lemma_text_units(chars_in(t.take(f)));
            assert(t.take(f) + t.skip(f) =~= t);
            lemma_units_prefix(t.take(f), t.skip(f), f);
        }
        let index = rope_byte_to_char(&self.rope, at);
        rope_char_to_utf16(&self.rope, index)
    }

    /// The byte offset of the character that a UTF-16 offset belongs to; the
    /// end of the text where it lies beyond that.
    pub fn utf16_to_byte(&self, utf16: usize) -> (b: usize)
        ensures
            b == byte_of_units(self.doc().cells, utf16 as int, self.doc().len()),
    {
        let (bytes, _, _) = self.sizes();
        let ghost text = self.chars();
        let ghost t = cells(text);
        let total = rope_len_utf16(&self.rope);
        let u = if utf16 <= total {
            utf16
        } else {
            total
        };
        let index = rope_utf16_to_char(&self.rope, u);
        let b = rope_char_to_byte(&self.rope, index);
        proof {
            let head = text.take(index as int);
            let tail = text.skip(index as int);
            assert(text =~= head + tail);
            lemma_cells_concat(head, tail);
            lemma_cells_well_formed(text);
            lemma_cells_well_formed(tail);
            lemma_text_units(head);
            lemma_units_prefix(cells(head), cells(tail), b as int);
            if index < text.len() {
                let c = text[index as int];
                let next = text.take(index + 1);
                assert(next.drop_last() =~= head);
                assert(text_units(next) == text_units(head) + units(c));
                let first = seq![c];
                assert(tail =~= first + tail.skip(1));
                lemma_cells_concat(first, tail.skip(1));
                assert(first.drop_last() =~= Seq::empty());
                assert(cells(first.drop_last()) =~= Seq::empty());
                assert(cells(first) =~= char_cells(c));
                assert(cells(tail)[0] == Some(c));
                assert(t[b as int] == cells(tail)[0]);
                if u < utf16 {
                    lemma_units_take(text, index + 1);
                }
            } else {
                assert(tail =~= Seq::empty());
                assert(cells(tail) =~= Seq::empty());
            }
            lemma_byte_of_units(t, utf16 as int, b as int, t.len() as int);
        }
        b
    }

    /// Clamp a byte offset into the buffer AND down to a char boundary.
    pub fn clamp(&self, byte: usize) -> (b: usize)
        ensures
            b == floor_in(self.doc().cells, min(byte as int, self.doc().len())),
    {
        let (bytes, _, _) = self.sizes();
        let ghost text = self.chars();
        let ghost t = cells(text);
        let at = if byte <= bytes {
            byte
        } else {
            bytes
        };
        proof {
            lemma_cells_well_formed(text);
            lemma_floor_in(t, at as int);
            lemma_index(text, floor_in(t, at as int));
        }
        let index = rope_byte_to_char(&self.rope, at);
        rope_char_to_byte(&self.rope, index)
    }

    /// The character index of a boundary.
    fn index_of(&self, byte: usize) -> (index: usize)
        requires
            byte <= self.doc().len(),
            self.doc().at_boundary(byte as int),
        ensures
            index <= self.chars().len(),
            index == chars_in(cells(self.chars()).take(byte as int)).len(),
            self.chars().take(index as int) == chars_in(cells(self.chars()).take(byte as int)),
            self.chars().skip(index as int) == chars_in(cells(self.chars()).skip(byte as int)),
    {
        let (bytes, _, _) = self.sizes();
        proof {
            lemma_cells_well_formed(self.chars());
            lemma_floor_in(cells(self.chars()), byte as int);
            lemma_index(self.chars(), byte as int);
        }
        rope_byte_to_char(&self.rope, byte)
    }
}

/// The last character of a text ends at its end.
proof fn lemma_last_char(text: Seq<char>)
    requires
        text.len() > 0,
    ensures
        cells(text).len() > 0,
        text.last() == '\n' <==> cells(text).last() == Some('\n'),
{
    let c = text.last();
    assert(cells(text) =~= cells(text.drop_last()) + char_cells(c));
    assert(cells(text).last() == char_cells(c).last());
    if width(c) > 1 {
        assert(char_cells(c).last() is None);
        assert(c != '\n');
    }
}

/// Fewer characters have no more code units.
proof fn lemma_units_take(text: Seq<char>, n: int)
    requires
        0 <= n <= text.len(),
    ensures
        text_units(text.take(n)) <= text_units(text),
    decreases text.len(),
{
    if n < text.len() {
        lemma_units_take(text.drop_last(), n);
        assert(text.drop_last().take(n) =~= text.take(n));
    } else {
        assert(text.take(n) =~= text);
    }
}

impl VimBuffer for RopeBuffer {
    open spec fn doc(&self) -> Doc {
        sound(rope_doc(cells(self.chars())))
    }

    proof fn doc_wf(&self) {
        lemma_sound(rope_doc(cells(self.chars())));
    }

    fn len(&self) -> (n: usize) {
        self.sizes().0
    }

    fn line_count(&self) -> (n: usize) {
        self.line_count_real()
    }

    fn char_at(&self, offset: usize) -> (c: Option<char>) {
        let (bytes, _, _) = self.sizes();
        if offset >= bytes {
            return None;
        }
        let ghost text = self.chars();
        let ghost t = cells(text);
        proof {
            lemma_cells_well_formed(text);
            lemma_floor_in(t, offset as int);
            lemma_index(text, floor_in(t, offset as int));
        }
        // the index is that of the character which the byte belongs to
        let index = rope_byte_to_char(&self.rope, offset);
        if rope_char_to_byte(&self.rope, index) != offset {
            return None;
        }
        rope_char(&self.rope, index)
    }

    fn prev_char_offset(&self, offset: usize) -> (p: Option<usize>) {
        let (bytes, _, _) = self.sizes();
        if offset == 0 || offset > bytes {
            return None;
        }
        let ghost text = self.chars();
        let ghost t = cells(text);
        proof {
            lemma_cells_well_formed(text);
            lemma_floor_in(t, offset as int);
            lemma_index(text, floor_in(t, offset as int));
        }
        let index = rope_byte_to_char(&self.rope, offset);
        if rope_char_to_byte(&self.rope, index) != offset {
            return None;
        }
        proof {
            let d = self.doc();
            assert(boundary(t, offset as int));
            d.lemma_prev(offset as int);
            let q = d.prev(offset as int)->0;
            lemma_index(text, offset as int);
            lemma_index(text, q);
            let one = seq![t[q]->0];
            assert(t.subrange(q, offset as int) =~= char_cells(t[q]->0)) by {
                assert(char_fits(t, q));
                assert forall|k: int| q < k < offset implies t[k] is None by {}
            }
            assert(one.drop_last() =~= Seq::empty());
            assert(cells(one.drop_last()) =~= Seq::empty());
            assert(cells(one) =~= char_cells(t[q]->0));
            lemma_chars_in_cells(one);
            assert(t.take(offset as int) =~= t.take(q) + t.subrange(q, offset as int));
            lemma_chars_in_concat(t.take(q), t.subrange(q, offset as int));
        }
        if index == 0 {
            return None;
        }
        match rope_char(&self.rope, index - 1) {
            Some(c) => Some(offset - char_len(c)),
            None => None,
        }
    }

    fn line_range(&self, line: usize) -> (r: Range<usize>) {
        let (bytes, _, lines) = self.sizes();
        proof {
            lemma_cells_well_formed(self.chars());
            lemma_rope_starts(cells(self.chars()), bytes as int);
        }
        if line >= lines {
            return bytes..bytes;
        }
        let start = rope_line_to_byte(&self.rope, line);
        let end = rope_line_to_byte(&self.rope, line + 1);
        start..end
    }

    fn offset_to_line(&self, offset: usize) -> (l: usize) {
        let (bytes, _, _) = self.sizes();
        let ghost t = cells(self.chars());
        let at = if offset <= bytes {
            offset
        } else {
            bytes
        };
        let line = rope_byte_to_line(&self.rope, at);
        let last = self.line_count_real() - 1;
        proof {
            lemma_cells_well_formed(self.chars());
            lemma_rope_starts(t, bytes as int);
            let all = rope_lines(t);
            let d = self.doc();
            crate::doc::lemma_last_start(all, at as int, all.len() as int);
            let l = if line <= last {
                line as int
            } else {
                last as int
            };
            assert(d.starts[l] == all[l]);
            if line > last {
                assert(all[line as int] == bytes);
                if l + 1 < line {
                    assert(all[l + 1] < all[line as int]);
                }
                if l < line {
                    assert(all[l] < all[line as int]);
                }
            }
            if l + 1 < d.starts.len() {
                assert(d.starts[l + 1] == all[l + 1]);
            }
            assert forall|a: int, b: int| 0 <= a < b < d.starts.len() implies #[trigger] d.starts[a]
                < #[trigger] d.starts[b] by {}
            lemma_last_start_is(d.starts, offset as int, d.starts.len() as int, l);
        }
        if line <= last {
            line
        } else {
            last
        }
    }

    /// Ends inside a character count as the character's start; a range that
    /// runs beyond the text ends there.
    open spec fn piece(d: Doc, a: int, b: int) -> Seq<char> {
        let e = min(b, d.len());
        let s = min(a, e);
        d.slice(floor_in(d.cells, s), floor_in(d.cells, e))
    }

    proof fn piece_exact(d: Doc, a: int, b: int) {
        lemma_floor_in(d.cells, a);
        lemma_floor_in(d.cells, b);
        assert(floor_in(d.cells, a) == a);
        assert(floor_in(d.cells, b) == b);
        assert(Self::piece(d, a, b) == d.slice(a, b));
    }

    fn slice(&self, range: Range<usize>) -> (s: String) {
        let (bytes, _, _) = self.sizes();
        let ghost text = self.chars();
        let ghost t = cells(text);
        let ghost d = self.doc();
        let end = if range.end <= bytes {
            range.end
        } else {
            bytes
        };
        let start = if range.start <= end {
            range.start
        } else {
            end
        };
        let from = rope_byte_to_char(&self.rope, start);
        let to = rope_byte_to_char(&self.rope, end);
        proof {
            lemma_cells_well_formed(text);
            lemma_floor_in(t, start as int);
            lemma_floor_in(t, end as int);
            let a = floor_in(t, start as int);
            let b = floor_in(t, end as int);
            assert(a <= b);
            lemma_index(text, a);
            lemma_index(text, b);
            assert(t.take(b) =~= t.take(a) + t.subrange(a, b));
            lemma_chars_in_concat(t.take(a), t.subrange(a, b));
            let whole = chars_in(t.take(b));
            assert(text.take(to as int) == whole);
            assert(text.subrange(from as int, to as int) =~= text.take(to as int).skip(from as int));
            assert(whole.skip(from as int) =~= chars_in(t.subrange(a, b)));
            assert(Self::piece(d, range.start as int, range.end as int) == d.slice(a, b));
            if d.is_range(range.start as int, range.end as int) {
                Self::piece_exact(d, range.start as int, range.end as int);
            }
        }
        rope_slice(&self.rope, from, to)
    }
}

impl VimBufferMut for RopeBuffer {
    open spec fn editable(&self) -> bool {
        true
    }

    open spec fn edition(&self) -> u64 {
        0
    }

    open spec fn next_edition(n: u64) -> u64 {
        n
    }

    open spec fn doc_of(t: Seq<Option<char>>) -> Doc {
        rope_doc(t)
    }

    /// Ends inside a character count as the character's start, ends beyond
    /// the text as its end.
    open spec fn edited(d: Doc, a: int, b: int, with: Seq<char>) -> Doc {
        let e = floor_in(d.cells, min(b, d.len()));
        let s = floor_in(d.cells, min(a, e));
        rope_doc(splice(d.cells, s, e, cells(with)))
    }

    open spec fn takes(with: Seq<char>) -> bool {
        true
    }

    proof fn edited_exact(d: Doc, a: int, b: int, with: Seq<char>) {
        lemma_floor_in(d.cells, a);
        lemma_floor_in(d.cells, b);
    }

    proof fn blanks_join_their_line(d: Doc, i: int, blanks: Seq<char>) {
        lemma_rope_blanks(d, i, blanks);
    }

    fn insert_text(&mut self, offset: usize, text: &str) {
        // A mid-char offset (shouldn't happen from the engine, but a
        // caller's mistake must not teleport text to the end of the buffer)
        // rounds DOWN to the nearest char boundary.
        let at = self.clamp(offset);
        let ghost d = self.doc();
        let (bytes, _, _) = self.sizes();
        let ghost before = self.chars();
        proof {
            lemma_cells_well_formed(before);
            lemma_floor_in(d.cells, min(offset as int, d.len()));
            lemma_floor_in(d.cells, at as int);
            lemma_index(before, at as int);
        }
        let index = self.index_of(at);
        rope_insert(&mut self.rope, index, text);
        proof {
            let head = before.take(index as int);
            let tail = before.skip(index as int);
            lemma_cells_concat(head, text@);
            lemma_cells_concat(head + text@, tail);
            assert(cells(self.chars()) =~= splice(d.cells, at as int, at as int, cells(text@)));
        }
        let after = self.sizes();
    }

    fn delete_range(&mut self, range: Range<usize>) {
        let end = self.clamp(range.end);
        let start = self.clamp(
            if range.start <= end {
                range.start
            } else {
                end
            },
        );
        let ghost d = self.doc();
        let (bytes, _, _) = self.sizes();
        let ghost before = self.chars();
        let ghost t = cells(before);
        proof {
            lemma_cells_well_formed(before);
            lemma_floor_in(t, min(range.end as int, d.len()));
            lemma_floor_in(t, min(range.start as int, end as int));
            lemma_floor_in(t, end as int);
            lemma_index(before, start as int);
            lemma_index(before, end as int);
            assert(t.take(end as int) =~= t.take(start as int) + t.subrange(
                start as int,
                end as int,
            ));
            lemma_chars_in_concat(t.take(start as int), t.subrange(start as int, end as int));
        }
        let from = self.index_of(start);
        let to = self.index_of(end);
        rope_remove(&mut self.rope, from, to);
        proof {
            let head = before.take(from as int);
            let tail = before.skip(to as int);
            lemma_cells_concat(head, tail);
            assert(cells(Seq::<char>::empty()) =~= Seq::empty());
            assert(cells(self.chars()) =~= splice(
                t,
                start as int,
                end as int,
                cells(Seq::<char>::empty()),
            ));
        }
        let after = self.sizes();
    }
}

} // verus!
