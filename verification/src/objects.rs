//! Text objects: `iw aw iW aW is as ip ap`, quotes, bracket blocks and tags.
//!
//! A text object yields a span; in Operator-Pending it feeds an operator, in
//! Visual mode it extends the selection.
use crate::buffer::VimBuffer;
use crate::cells::{char_len, width};
use crate::chars::{is_white, white};
use crate::doc::{max, min, Doc};
use crate::shift::plus;
use crate::strs::{chars_of, same_chars, split_words, sub_chars, texts, words};
use crate::word::{
    class_of, char_class, close_of, find_close, find_open, lemma_scan, lemma_scan_back_step,
    lemma_scan_step, next_sentence, not_blank, open_of, prev_sentence, scan, scan_back,
    sentence_after, sentence_before, Class,
};
use vstd::prelude::*;

verus! {

#[derive(Clone, Copy, Debug, PartialEq, Eq, Structural)]
pub enum TextObject {
    Word { inner: bool, big: bool },
    Sentence { inner: bool },
    Paragraph { inner: bool },
    Quote { inner: bool, quote: char },
    Block { inner: bool, open: char, close: char },
    Tag { inner: bool },
}

#[derive(Clone, Copy, Debug, PartialEq, Eq, Structural)]
pub struct ObjectRange {
    pub start: usize,
    pub end: usize,
    pub linewise: bool,
}

/// Where an object lies.
pub struct Extent {
    pub start: int,
    pub end: int,
    pub linewise: bool,
}

pub open spec fn charwise(start: int, end: int) -> Extent {
    Extent { start, end, linewise: false }
}

impl ObjectRange {
    pub open spec fn extent(self) -> Extent {
        Extent { start: self.start as int, end: self.end as int, linewise: self.linewise }
    }

    fn charwise(start: usize, end: usize) -> (r: Self)
        ensures
            r.extent() == charwise(start as int, end as int),
    {
        ObjectRange { start, end, linewise: false }
    }
}

pub open spec fn extent_of(r: Option<ObjectRange>) -> Option<Extent> {
    match r {
        Some(r) => Some(r.extent()),
        None => None,
    }
}

/// The bracket pair behind a single-letter alias.
pub open spec fn alias_pair(c: char) -> Option<(char, char)> {
    if c == 'b' {
        Some(('(', ')'))
    } else if c == 'B' {
        Some(('{', '}'))
    } else {
        None
    }
}

/// Map the single-letter aliases (`b`, `B`) to their bracket pairs.
pub fn resolve_alias(c: char, inner: bool) -> (r: Option<TextObject>)
    ensures
        r == match alias_pair(c) {
            Some((open, close)) => Some(TextObject::Block { inner, open, close }),
            None => None,
        },
{
    if c == 'b' {
        Some(TextObject::Block { inner, open: '(', close: ')' })
    } else if c == 'B' {
        Some(TextObject::Block { inner, open: '{', close: '}' })
    } else {
        None
    }
}

// ---- words -----------------------------------------------------------------------

/// The class of the character at `o`, blanks and words only when `big`.
pub open spec fn object_class(d: Doc, o: int, big: bool) -> Option<Class> {
    match d.char_at(o) {
        Some(c) => if !big {
            Some(class_of(c))
        } else if c == '\n' {
            None
        } else if white(c) {
            Some(Class::Blank)
        } else {
            Some(Class::Word)
        },
        None => None,
    }
}

fn class_at_object<B: VimBuffer>(buf: &B, o: usize, big: bool) -> (k: Option<Class>)
    ensures
        k == object_class(buf.doc(), o as int, big),
{
    match buf.char_at(o) {
        Some(c) => if !big {
            Some(char_class(c))
        } else if c == '\n' {
            None
        } else if is_white(c) {
            Some(Class::Blank)
        } else {
            Some(Class::Word)
        },
        None => None,
    }
}

pub open spec fn leaves_run_back(d: Doc, from: int, big: bool, k: Class) -> spec_fn(int) -> bool {
    |p: int| p < from || object_class(d, p, big) != Some(k)
}

pub open spec fn leaves_run(d: Doc, to: int, big: bool, k: Class) -> spec_fn(int) -> bool {
    |p: int| p >= to || object_class(d, p, big) != Some(k)
}

pub open spec fn leaves_blanks_back(d: Doc, from: int) -> spec_fn(int) -> bool {
    |p: int| p < from || !blank_at(d, p)
}

pub open spec fn leaves_blanks(d: Doc, to: int) -> spec_fn(int) -> bool {
    |p: int| p >= to || !blank_at(d, p)
}

/// The character at `o` is white space.
pub open spec fn blank_at(d: Doc, o: int) -> bool {
    d.char_at(o) matches Some(c) && white(c)
}

/// The run of the class at `o` within its line; with `inner` off, a word
/// takes the blanks behind it along, or those before it when there are none.
pub open spec fn word_object(d: Doc, o: int, inner: bool, big: bool) -> Extent {
    let line = d.line_of(o);
    let from = d.line_start(line);
    let to = d.line_end(line);
    let at = max(
        min(
            o,
            if to > 0 {
                to - 1
            } else {
                0
            },
        ),
        from,
    );
    match object_class(d, at, big) {
        None => charwise(from, to),
        Some(k) => {
            let start = scan_back(d, o, leaves_run_back(d, from, big, k));
            let behind = match d.next(o) {
                Some(n) => n,
                None => o,
            };
            let end = scan(d, behind, leaves_run(d, to, big, k));
            if inner || k == Class::Blank {
                charwise(start, end)
            } else {
                let wider = scan(d, end, leaves_blanks(d, to));
                if wider > end {
                    charwise(start, wider)
                } else {
                    charwise(scan_back(d, start, leaves_blanks_back(d, from)), end)
                }
            }
        },
    }
}

/// Steps back from `o` over characters of class `class`, not beyond `from`.
fn run_start<B: VimBuffer>(buf: &B, offset: usize, from: usize, big: bool, class: Class) -> (o: usize)
    ensures
        o == scan_back(
            buf.doc(),
            offset as int,
            leaves_run_back(buf.doc(), from as int, big, class),
        ),
        o <= offset,
{
    let ghost d = buf.doc();
    let ghost stop = leaves_run_back(d, from as int, big, class);
    proof {
        buf.doc_wf();
    }
    let mut o: usize = offset;
    loop
        invariant
            d == buf.doc(),
            d.wf(),
            stop == leaves_run_back(d, from as int, big, class),
            o <= offset,
            scan_back(d, o as int, stop) == scan_back(d, offset as int, stop),
        ensures
            o <= offset,
            o == scan_back(d, offset as int, stop),
        decreases o,
    {
        match buf.prev_char_offset(o) {
            Some(prev) => {
                if prev >= from && class_at_object(buf, prev, big) == Some(class) {
                    proof {
                        lemma_scan_back_step(d, o as int, stop);
                    }
                    o = prev;
                } else {
                    break;
                }
            },
            None => {
                break;
            },
        }
    }
    o
}

fn run_end<B: VimBuffer>(buf: &B, offset: usize, to: usize, big: bool, class: Class) -> (o: usize)
    ensures
        o == scan(buf.doc(), offset as int, leaves_run(buf.doc(), to as int, big, class)),
        offset <= o,
{
    let ghost d = buf.doc();
    let ghost stop = leaves_run(d, to as int, big, class);
    proof {
        buf.doc_wf();
    }
    let mut o: usize = offset;
    loop
        invariant
            d == buf.doc(),
            d.wf(),
            stop == leaves_run(d, to as int, big, class),
            offset <= o,
            scan(d, o as int, stop) == scan(d, offset as int, stop),
        ensures
            offset <= o,
            o == scan(d, offset as int, stop),
        decreases d.len() - o,
    {
        if o >= to || class_at_object(buf, o, big) != Some(class) {
            break;
        }
        proof {
            d.lemma_char_fits(o as int);
        }
        match buf.char_at(o) {
            Some(c) => {
                proof {
                    lemma_scan_step(d, o as int, stop);
                }
                o = o + char_len(c);
            },
            None => {
                break;
            },
        }
    }
    o
}

pub(crate) fn blanks_start<B: VimBuffer>(buf: &B, offset: usize, from: usize) -> (o: usize)
    ensures
        o == scan_back(buf.doc(), offset as int, leaves_blanks_back(buf.doc(), from as int)),
        o <= offset,
{
    let ghost d = buf.doc();
    let ghost stop = leaves_blanks_back(d, from as int);
    proof {
        buf.doc_wf();
    }
    let mut o: usize = offset;
    loop
        invariant
            d == buf.doc(),
            d.wf(),
            stop == leaves_blanks_back(d, from as int),
            o <= offset,
            scan_back(d, o as int, stop) == scan_back(d, offset as int, stop),
        ensures
            o <= offset,
            o == scan_back(d, offset as int, stop),
        decreases o,
    {
        let prev = match buf.prev_char_offset(o) {
            Some(prev) => prev,
            None => {
                break;
            },
        };
        let blank = match buf.char_at(prev) {
            Some(c) => is_white(c),
            None => false,
        };
        if prev < from || !blank {
            break;
        }
        proof {
            lemma_scan_back_step(d, o as int, stop);
        }
        o = prev;
    }
    o
}

fn blanks_end<B: VimBuffer>(buf: &B, offset: usize, to: usize) -> (o: usize)
    ensures
        o == scan(buf.doc(), offset as int, leaves_blanks(buf.doc(), to as int)),
        offset <= o,
{
    let ghost d = buf.doc();
    let ghost stop = leaves_blanks(d, to as int);
    proof {
        buf.doc_wf();
    }
    let mut o: usize = offset;
    loop
        invariant
            d == buf.doc(),
            d.wf(),
            stop == leaves_blanks(d, to as int),
            offset <= o,
            scan(d, o as int, stop) == scan(d, offset as int, stop),
        ensures
            offset <= o,
            o == scan(d, offset as int, stop),
        decreases d.len() - o,
    {
        proof {
            d.lemma_char_fits(o as int);
        }
        match buf.char_at(o) {
            Some(c) => {
                if o >= to || !is_white(c) {
                    break;
                }
                proof {
                    lemma_scan_step(d, o as int, stop);
                }
                o = o + char_len(c);
            },
            None => {
                break;
            },
        }
    }
    o
}

fn word_range<B: VimBuffer>(buf: &B, offset: usize, inner: bool, big: bool) -> (r: ObjectRange)
    ensures
        r.extent() == word_object(buf.doc(), offset as int, inner, big),
{
    let ghost d = buf.doc();
    proof {
        buf.doc_wf();
    }
    let line = buf.offset_to_line(offset);
    let line_start = buf.line_start(line);
    let line_end = buf.line_end(line);
    let last: usize = if line_end > 0 {
        line_end - 1
    } else {
        0
    };
    let capped: usize = if offset <= last {
        offset
    } else {
        last
    };
    let at: usize = if capped >= line_start {
        capped
    } else {
        line_start
    };
    let class = match class_at_object(buf, at, big) {
        Some(class) => class,
        None => {
            return ObjectRange::charwise(line_start, line_end);
        },
    };
    // expand to the run of the same class within this line
    let start = run_start(buf, offset, line_start, big, class);
    let behind = match buf.next_char_offset(offset) {
        Some(n) => n,
        None => offset,
    };
    let end = run_end(buf, behind, line_end, big, class);
    if inner || class == Class::Blank {
        return ObjectRange::charwise(start, end);
    }
    // aw: prefer trailing whitespace, fall back to leading
    let wider = blanks_end(buf, end, line_end);
    if wider > end {
        ObjectRange::charwise(start, wider)
    } else {
        ObjectRange::charwise(blanks_start(buf, start, line_start), end)
    }
}

// ---- sentences and paragraphs ------------------------------------------------------

/// The sentence at `o`: from its beginning to the next one. With `inner`, the
/// blanks at its front are left out.
pub open spec fn sentence_object(d: Doc, o: int, inner: bool) -> Extent {
    let start = sentence_before(d, min(min(o + 1, usize::MAX as int), d.len()));
    let end = sentence_after(d, o);
    if inner {
        let trimmed = scan(d, start, not_blank(d));
        charwise(trimmed, max(end, trimmed))
    } else {
        charwise(start, max(scan(d, end, not_blank(d)), end))
    }
}

fn past_blanks<B: VimBuffer>(buf: &B, offset: usize) -> (o: usize)
    ensures
        o == scan(buf.doc(), offset as int, not_blank(buf.doc())),
        offset <= o,
{
    let ghost d = buf.doc();
    let ghost stop = not_blank(d);
    proof {
        buf.doc_wf();
    }
    let mut o: usize = offset;
    loop
        invariant
            d == buf.doc(),
            d.wf(),
            stop == not_blank(d),
            offset <= o,
            scan(d, o as int, stop) == scan(d, offset as int, stop),
        ensures
            offset <= o,
            o == scan(d, offset as int, stop),
        decreases d.len() - o,
    {
        proof {
            d.lemma_char_fits(o as int);
        }
        match buf.char_at(o) {
            Some(c) => {
                if !is_white(c) {
                    break;
                }
                proof {
                    lemma_scan_step(d, o as int, stop);
                }
                o = o + char_len(c);
            },
            None => {
                break;
            },
        }
    }
    o
}

fn sentence_range<B: VimBuffer>(buf: &B, offset: usize, inner: bool) -> (r: ObjectRange)
    ensures
        r.extent() == sentence_object(buf.doc(), offset as int, inner),
{
    let len = buf.len();
    let behind = plus(offset, 1);
    let start = prev_sentence(
        buf,
        if behind <= len {
            behind
        } else {
            len
        },
    );
    let end = next_sentence(buf, offset);
    if !inner {
        // outer: take trailing whitespace along
        let o = past_blanks(buf, end);
        return ObjectRange::charwise(start, o);
    }
    // inner: trim leading whitespace
    let trimmed = past_blanks(buf, start);
    ObjectRange::charwise(
        trimmed,
        if end >= trimmed {
            end
        } else {
            trimmed
        },
    )
}

/// The first line of the block of lines around `i` that are all blank or all
/// not.
pub open spec fn block_first(d: Doc, i: int, blank: bool) -> int
    decreases i,
{
    if i > 0 && d.is_blank(i - 1) == blank {
        block_first(d, i - 1, blank)
    } else {
        i
    }
}

/// The last line of that block.
pub open spec fn block_last(d: Doc, i: int, blank: bool) -> int
    decreases d.line_count() - i,
{
    if i + 1 < d.line_count() && d.is_blank(i + 1) == blank {
        block_last(d, i + 1, blank)
    } else {
        i
    }
}

/// The paragraph at `o`, by whole lines; with `inner` off, one more line.
pub open spec fn paragraph_object(d: Doc, o: int, inner: bool) -> Extent {
    let line = d.line_of(o);
    let blank = d.is_blank(line);
    let last = block_last(d, line, blank);
    let upto = if !inner && last + 1 < d.line_count() {
        last + 1
    } else {
        last
    };
    Extent {
        start: d.line_start(block_first(d, line, blank)),
        end: d.line_stop(upto),
        linewise: true,
    }
}

fn paragraph_range<B: VimBuffer>(buf: &B, offset: usize, inner: bool) -> (r: ObjectRange)
    ensures
        r.extent() == paragraph_object(buf.doc(), offset as int, inner),
{
    let ghost d = buf.doc();
    proof {
        buf.doc_wf();
        d.lemma_line_of(offset as int);
    }
    let line = buf.offset_to_line(offset);
    let blank = buf.line_is_blank(line);
    let count = buf.line_count();
    // find the start: first line of this paragraph block
    let mut first: usize = line;
    while first > 0 && buf.line_is_blank(first - 1) == blank
        invariant
            d == buf.doc(),
            block_first(d, first as int, blank) == block_first(d, line as int, blank),
        decreases first,
    {
        first = first - 1;
    }
    // find the end: last line of the block
    let mut last: usize = line;
    while last < count - 1 && buf.line_is_blank(last + 1) == blank
        invariant
            d == buf.doc(),
            count == d.line_count(),
            last < count,
            block_last(d, last as int, blank) == block_last(d, line as int, blank),
        decreases count - last,
    {
        last = last + 1;
    }
    if !inner && last < count - 1 {
        // `ap` swallows one following blank line
        last = last + 1;
    }
    ObjectRange { start: buf.line_start(first), end: buf.line_range(last).end, linewise: true }
}

// ---- quotes ------------------------------------------------------------------------

/// A quote at `o` that no backslash escapes.
pub open spec fn is_quote(d: Doc, o: int, from: int, quote: char) -> bool {
    d.char_at(o) == Some(quote) && !(o > from && d.char_at(o - 1) == Some('\\'))
}

/// The unescaped quotes in `[o, end)` of a line that starts at `from`.
pub open spec fn quotes_in(d: Doc, o: int, from: int, end: int, quote: char) -> Seq<int>
    decreases d.len() - o,
{
    if o >= end {
        Seq::empty()
    } else {
        match d.next(o) {
            Some(n) => {
                let rest = if n <= d.len() {
                    quotes_in(d, n, from, end, quote)
                } else {
                    Seq::empty()
                };
                if is_quote(d, o, from, quote) {
                    seq![o] + rest
                } else {
                    rest
                }
            },
            None => Seq::empty(),
        }
    }
}

/// The first pair of quotes, from the `i`-th quote on, that ends at or behind
/// `o`.
pub open spec fn quote_pair(at: Seq<int>, i: int, o: int) -> Option<(int, int)>
    decreases at.len() - i,
{
    if i + 1 >= at.len() {
        None
    } else if o <= at[i + 1] {
        Some((at[i], at[i + 1]))
    } else {
        quote_pair(at, i + 2, o)
    }
}

/// The quoted text around `o` or behind it on its line.
pub open spec fn quote_object(d: Doc, o: int, inner: bool, quote: char) -> Option<Extent> {
    let line = d.line_of(o);
    let at = quotes_in(d, d.line_start(line), d.line_start(line), d.line_end(line), quote);
    match quote_pair(at, 0, o) {
        Some((open, close)) => Some(
            if inner {
                charwise(open + width(quote), close)
            } else {
                charwise(open, close + width(quote))
            },
        ),
        None => None,
    }
}

/// Offsets of a list, as a sequence of integers.
pub open spec fn ints(v: Seq<usize>) -> Seq<int> {
    v.map_values(|n: usize| n as int)
}

fn quote_positions<B: VimBuffer>(buf: &B, offset: usize, quote: char) -> (r: Vec<usize>)
    ensures
        ints(r@) == quotes_in(
            buf.doc(),
            buf.doc().line_start(buf.doc().line_of(offset as int)),
            buf.doc().line_start(buf.doc().line_of(offset as int)),
            buf.doc().line_end(buf.doc().line_of(offset as int)),
            quote,
        ),
        forall|i: int|
            0 <= i < r@.len() ==> buf.doc().char_at(#[trigger] r@[i] as int) == Some(quote),
{
    let ghost d = buf.doc();
    proof {
        buf.doc_wf();
    }
    let line = buf.offset_to_line(offset);
    let from = buf.line_start(line);
    let end = buf.line_end(line);
    let ghost all = quotes_in(d, from as int, from as int, end as int, quote);
    let mut r: Vec<usize> = Vec::new();
    let mut o: usize = from;
    proof {
        assert(ints(r@) + all =~= all);
    }
    while o < end
        invariant
            d == buf.doc(),
            d.wf(),
            from == d.line_start(d.line_of(offset as int)),
            end == d.line_end(d.line_of(offset as int)),
            all == quotes_in(d, from as int, from as int, end as int, quote),
            ints(r@) + quotes_in(d, o as int, from as int, end as int, quote) == all,
            forall|i: int| 0 <= i < r@.len() ==> d.char_at(#[trigger] r@[i] as int) == Some(quote),
        decreases d.len() - o,
    {
        proof {
            d.lemma_char_fits(o as int);
        }
        match buf.char_at(o) {
            Some(c) => {
                let ghost before = ints(r@);
                let ghost rest = quotes_in(d, o + width(c), from as int, end as int, quote);
                if c == quote {
                    // an escaped quote \" is text, not a delimiter
                    let escaped = o > from && match buf.char_at(o - 1) {
                        Some(b) => b == '\\',
                        None => false,
                    };
                    if !escaped {
                        r.push(o);
                        proof {
                            assert(ints(r@) =~= before.push(o as int));
                            assert(before.push(o as int) + rest =~= before + (seq![o as int]
                                + rest));
                        }
                    }
                }
                o = o + char_len(c);
            },
            None => {
                proof {
                    assert(ints(r@) + Seq::<int>::empty() =~= ints(r@));
                }
                return r;
            },
        }
    }
    proof {
        assert(ints(r@) + Seq::<int>::empty() =~= ints(r@));
    }
    r
}

fn quote_range<B: VimBuffer>(buf: &B, offset: usize, inner: bool, quote: char) -> (r: Option<
    ObjectRange,
>)
    ensures
        extent_of(r) == quote_object(buf.doc(), offset as int, inner, quote),
{
    let ghost d = buf.doc();
    proof {
        buf.doc_wf();
    }
    let positions = quote_positions(buf, offset, quote);
    let ghost at = ints(positions@);
    // pairs in order; find the pair containing the cursor, else the next one
    let mut i: usize = 0;
    while positions.len() >= 2 && i < positions.len() - 1
        invariant
            d == buf.doc(),
            d.wf(),
            i <= positions.len(),
            at == ints(positions@),
            at == quotes_in(
                d,
                d.line_start(d.line_of(offset as int)),
                d.line_start(d.line_of(offset as int)),
                d.line_end(d.line_of(offset as int)),
                quote,
            ),
            forall|i: int|
                0 <= i < positions@.len() ==> d.char_at(#[trigger] positions@[i] as int) == Some(
                    quote,
                ),
            quote_pair(at, i as int, offset as int) == quote_pair(at, 0, offset as int),
        decreases positions.len() - i,
    {
        let (open, close) = (positions[i], positions[i + 1]);
        proof {
            assert(at[i as int] == open);
            assert(at[i + 1] == close);
            d.lemma_char_fits(open as int);
            d.lemma_char_fits(close as int);
        }
        if offset <= close {
            return Some(
                if inner {
                    ObjectRange::charwise(open + char_len(quote), close)
                } else {
                    ObjectRange::charwise(open, close + char_len(quote))
                },
            );
        }
        i = i + 2;
    }
    None
}

// ---- blocks ------------------------------------------------------------------------

/// The bracket that opens the block around `o`: the one at `o` itself, or the
/// innermost unmatched one before.
pub open spec fn block_open(d: Doc, o: int, open: char, close: char) -> Option<int> {
    if d.char_at(o) == Some(open) {
        Some(o)
    } else {
        open_of(d, o, open, close, 0)
    }
}

/// The block of brackets around `o`.
pub open spec fn block_object(d: Doc, o: int, inner: bool, open: char, close: char) -> Option<Extent> {
    match block_open(d, o, open, close) {
        Some(a) => match close_of(
            d,
            o,
            open,
            close,
            if d.char_at(o) == Some(open) {
                0
            } else {
                1
            },
        ) {
            Some(b) => Some(
                if inner {
                    charwise(a + width(open), b)
                } else {
                    charwise(a, b + width(close))
                },
            ),
            None => None,
        },
        None => None,
    }
}

fn block_range<B: VimBuffer>(
    buf: &B,
    offset: usize,
    inner: bool,
    open: char,
    close: char,
) -> (r: Option<ObjectRange>)
    ensures
        extent_of(r) == block_object(buf.doc(), offset as int, inner, open, close),
{
    let ghost d = buf.doc();
    proof {
        buf.doc_wf();
    }
    let on_open = match buf.char_at(offset) {
        Some(c) => c == open,
        None => false,
    };
    // scan backwards for the innermost unmatched `open`
    let open_pos = if on_open {
        offset
    } else {
        match find_open(buf, offset, open, close) {
            Some(p) => p,
            None => {
                return None;
            },
        }
    };
    if offset >= buf.len() {
        return None;
    }
    // scan forwards from the cursor for the innermost unmatched `close`
    let already: usize = if on_open {
        0
    } else {
        1
    };
    let close_pos = match find_close(buf, offset, open, close, already) {
        Some(p) => p,
        None => {
            return None;
        },
    };
    proof {
        if !on_open {
            lemma_open_of(d, offset as int, open, close, 0);
        }
        lemma_close_of(d, offset as int, open, close, already as int);
        d.lemma_char_fits(open_pos as int);
        d.lemma_char_fits(close_pos as int);
    }
    Some(
        if inner {
            ObjectRange::charwise(open_pos + char_len(open), close_pos)
        } else {
            ObjectRange::charwise(open_pos, close_pos + char_len(close))
        },
    )
}

/// What `open_of` finds is an opening bracket before `o`.
pub proof fn lemma_open_of(d: Doc, o: int, open: char, close: char, depth: int)
    requires
        d.wf(),
    ensures
        open_of(d, o, open, close, depth) matches Some(p) ==> 0 <= p < o && d.char_at(p) == Some(
            open,
        ),
    decreases o,
{
    if let Some(p) = d.prev(o) {
        d.lemma_prev(o);
        if d.char_at(p) == Some(close) {
            lemma_open_of(d, p, open, close, depth + 1);
        } else if d.char_at(p) == Some(open) {
            if depth > 0 {
                lemma_open_of(d, p, open, close, depth - 1);
            }
        } else {
            lemma_open_of(d, p, open, close, depth);
        }
    }
}

/// What `close_of` finds is a closing bracket at or behind `o`.
pub proof fn lemma_close_of(d: Doc, o: int, open: char, close: char, depth: int)
    requires
        d.wf(),
    ensures
        close_of(d, o, open, close, depth) matches Some(p) ==> o <= p < d.len() && d.char_at(p)
            == Some(close),
    decreases d.len() - o,
{
    d.lemma_char_fits(o);
    if let Some(c) = d.char_at(o) {
        if c == open {
            lemma_close_of(d, o + width(c), open, close, depth + 1);
        } else if c == close {
            if depth > 1 {
                lemma_close_of(d, o + width(c), open, close, depth - 1);
            }
        } else {
            lemma_close_of(d, o + width(c), open, close, depth);
        }
    }
}

// ---- tags --------------------------------------------------------------------------

/// A tag of the text: `<name ...>` opens an element, `</name>` closes one, and
/// so does a tag that ends in a slash.
pub struct TagMark {
    pub start: int,
    pub end: int,
    pub name: Seq<char>,
    pub open: bool,
}

pub open spec fn at_char(d: Doc, c: char) -> spec_fn(int) -> bool {
    |p: int| d.char_at(p) == Some(c)
}

pub open spec fn first_word(s: Seq<char>) -> Seq<char> {
    if words(s).len() > 0 {
        words(s)[0]
    } else {
        Seq::empty()
    }
}

pub open spec fn trim_slashes(s: Seq<char>) -> Seq<char>
    decreases s.len(),
{
    if s.len() > 0 && s.last() == '/' {
        trim_slashes(s.drop_last())
    } else {
        s
    }
}

/// What stands between `<` and `>`, read as a tag.
pub open spec fn tag_mark(start: int, end: int, body: Seq<char>) -> TagMark {
    if body.len() > 0 && body[0] == '/' {
        TagMark {
            start,
            end,
            name: first_word(trim_slashes(body.subrange(1, body.len() as int))),
            open: false,
        }
    } else {
        TagMark {
            start,
            end,
            name: first_word(body),
            open: !(body.len() > 0 && body.last() == '/'),
        }
    }
}

/// The tags of the text from `o` on.
pub open spec fn tags_from(d: Doc, o: int) -> Seq<TagMark>
    decreases d.len() - o,
{
    match d.next(o) {
        Some(n) => if n > d.len() {
            Seq::empty()
        } else {
            let gt = scan(d, o, at_char(d, '>'));
            if d.char_at(o) == Some('<') && d.char_at(gt) == Some('>') && n <= gt < d.len() {
                seq![tag_mark(o, gt + 1, d.slice(o + 1, gt))] + tags_from(d, gt + 1)
            } else {
                tags_from(d, n)
            }
        },
        None => Seq::empty(),
    }
}

/// The last open tag of that name.
pub open spec fn last_named(stack: Seq<TagMark>, name: Seq<char>) -> Option<int>
    decreases stack.len(),
{
    if stack.len() == 0 {
        None
    } else if stack.last().name == name {
        Some(stack.len() - 1)
    } else {
        last_named(stack.drop_last(), name)
    }
}

/// An element: where its opening tag starts and ends, and where its closing tag
/// starts and ends.
pub struct Element {
    pub start: int,
    pub inner_start: int,
    pub inner_end: int,
    pub end: int,
}

pub open spec fn element(open: TagMark, close: TagMark) -> Element {
    Element {
        start: open.start,
        inner_start: open.end,
        inner_end: close.start,
        end: close.end,
    }
}

/// The tightest element around `o` among the elements that the tags from the
/// `i`-th on close, given those still open and the tightest one so far.
pub open spec fn enclosing(
    tags: Seq<TagMark>,
    i: int,
    stack: Seq<TagMark>,
    best: Option<Element>,
    o: int,
) -> Option<Element>
    decreases tags.len() - i,
{
    if i < 0 || i >= tags.len() {
        best
    } else {
        let tag = tags[i];
        if tag.open {
            enclosing(tags, i + 1, stack.push(tag), best, o)
        } else {
            match last_named(stack, tag.name) {
                Some(at) => enclosing(
                    tags,
                    i + 1,
                    stack.take(at),
                    tighter(best, element(stack[at], tag), o),
                    o,
                ),
                None => enclosing(tags, i + 1, stack, best, o),
            }
        }
    }
}

/// The tighter of two elements around `o`: the one that starts later. The
/// cursor is behind the start of an element that is around it.
pub open spec fn tighter(best: Option<Element>, e: Element, o: int) -> Option<Element> {
    if e.start < o < e.end && (best matches Some(b) ==> b.start < e.start) {
        Some(e)
    } else {
        best
    }
}

/// The innermost element around `o`; with `inner`, what is between its tags, if
/// anything is.
pub open spec fn tag_object(d: Doc, o: int, inner: bool) -> Option<Extent> {
    match enclosing(tags_from(d, 0), 0, Seq::empty(), None, o) {
        Some(e) => if !inner {
            Some(charwise(e.start, e.end))
        } else if e.inner_start < e.inner_end {
            Some(charwise(e.inner_start, e.inner_end))
        } else {
            None
        },
        None => None,
    }
}

pub struct Tag {
    pub start: usize,
    pub end: usize,
    pub name: Vec<char>,
    pub open: bool,
}

impl Tag {
    pub open spec fn mark(self) -> TagMark {
        TagMark {
            start: self.start as int,
            end: self.end as int,
            name: self.name@,
            open: self.open,
        }
    }
}

pub open spec fn marks(v: Seq<Tag>) -> Seq<TagMark> {
    v.map_values(|t: Tag| t.mark())
}

/// The first `c` at or behind `offset`, or where the text ends.
fn seek<B: VimBuffer>(buf: &B, offset: usize, c: char) -> (o: usize)
    ensures
        o == scan(buf.doc(), offset as int, at_char(buf.doc(), c)),
        offset <= o,
{
    let ghost d = buf.doc();
    let ghost stop = at_char(d, c);
    proof {
        buf.doc_wf();
    }
    let mut o: usize = offset;
    loop
        invariant
            d == buf.doc(),
            d.wf(),
            stop == at_char(d, c),
            offset <= o,
            scan(d, o as int, stop) == scan(d, offset as int, stop),
        ensures
            offset <= o,
            o == scan(d, offset as int, stop),
        decreases d.len() - o,
    {
        proof {
            d.lemma_char_fits(o as int);
        }
        match buf.char_at(o) {
            Some(x) => {
                if x == c {
                    break;
                }
                proof {
                    lemma_scan_step(d, o as int, stop);
                }
                o = o + char_len(x);
            },
            None => {
                break;
            },
        }
    }
    o
}

fn read_first_word(s: &Vec<char>) -> (r: Vec<char>)
    ensures
        r@ == first_word(s@),
{
    let list = split_words(s);
    if list.len() == 0 {
        Vec::new()
    } else {
        let w = sub_chars(&list[0], 0, list[0].len());
        proof {
            assert(texts(list@)[0] == list@[0]@);
            assert(w@ =~= list@[0]@);
        }
        w
    }
}

fn read_tag(start: usize, end: usize, body: &Vec<char>) -> (t: Tag)
    ensures
        t.mark() == tag_mark(start as int, end as int, body@),
{
    if body.len() > 0 && body[0] == '/' {
        let mut stop: usize = body.len();
        let ghost rest = body@.subrange(1, body.len() as int);
        while stop > 1 && body[stop - 1] == '/'
            invariant
                1 <= stop <= body.len(),
                rest == body@.subrange(1, body.len() as int),
                trim_slashes(body@.subrange(1, stop as int)) == trim_slashes(rest),
            decreases stop,
        {
            proof {
                assert(body@.subrange(1, stop as int).drop_last() =~= body@.subrange(
                    1,
                    stop - 1,
                ));
            }
            stop = stop - 1;
        }
        let trimmed = sub_chars(body, 1, stop);
        proof {
            assert(trim_slashes(trimmed@) == trimmed@);
        }
        Tag { start, end, name: read_first_word(&trimmed), open: false }
    } else {
        Tag {
            start,
            end,
            name: read_first_word(body),
            open: !(body.len() > 0 && body[body.len() - 1] == '/'),
        }
    }
}

fn scan_tags<B: VimBuffer>(buf: &B) -> (r: Vec<Tag>)
    ensures
        marks(r@) == tags_from(buf.doc(), 0),
{
    let ghost d = buf.doc();
    proof {
        buf.doc_wf();
    }
    let mut r: Vec<Tag> = Vec::new();
    let mut o: usize = 0;
    let ghost all = tags_from(d, 0);
    proof {
        assert(marks(r@) + all =~= all);
    }
    loop
        invariant
            d == buf.doc(),
            d.wf(),
            marks(r@) + tags_from(d, o as int) == all,
        ensures
            marks(r@) == all,
        decreases d.len() - o,
    {
        proof {
            d.lemma_char_fits(o as int);
            assert(marks(r@) + Seq::<TagMark>::empty() =~= marks(r@));
        }
        let c = match buf.char_at(o) {
            Some(c) => c,
            None => {
                break;
            },
        };
        let next = o + char_len(c);
        if c == '<' {
            let gt = seek(buf, o, '>');
            proof {
                lemma_scan(d, o as int, at_char(d, '>'));
                d.lemma_char_fits(gt as int);
            }
            let closed = match buf.char_at(gt) {
                Some(x) => x == '>',
                None => false,
            };
            if closed {
                let ghost before = marks(r@);
                proof {
                    lemma_scan_step(d, o as int, at_char(d, '>'));
                    lemma_scan(d, next as int, at_char(d, '>'));
                }
                let body = chars_of(buf.slice(o + 1..gt).as_str());
                let tag = read_tag(o, gt + 1, &body);
                let ghost mark = tag.mark();
                r.push(tag);
                proof {
                    assert(marks(r@) =~= before.push(mark));
                    assert(before.push(mark) + tags_from(d, gt + 1) =~= before + (seq![mark]
                        + tags_from(d, gt + 1)));
                }
                o = gt + 1;
                continue ;
            }
        }
        o = next;
    }
    r
}

fn find_named(stack: &Vec<Tag>, name: &Vec<char>) -> (r: Option<usize>)
    ensures
        match r {
            Some(at) => at < stack.len() && last_named(marks(stack@), name@) == Some(at as int),
            None => last_named(marks(stack@), name@) is None,
        },
{
    let mut n: usize = stack.len();
    proof {
        assert(marks(stack@).take(n as int) =~= marks(stack@));
    }
    while n > 0
        invariant
            n <= stack.len(),
            last_named(marks(stack@).take(n as int), name@) == last_named(marks(stack@), name@),
        decreases n,
    {
        proof {
            let s = marks(stack@).take(n as int);
            assert(s.last() == stack@[n - 1].mark());
            assert(s.drop_last() =~= marks(stack@).take(n - 1));
        }
        if same_chars(&stack[n - 1].name, name) {
            return Some(n - 1);
        }
        n = n - 1;
    }
    None
}

/// An [`Element`] of the text.
#[derive(Clone, Copy)]
pub struct Bounds {
    pub start: usize,
    pub inner_start: usize,
    pub inner_end: usize,
    pub end: usize,
}

pub open spec fn element_of(b: Option<Bounds>) -> Option<Element> {
    match b {
        Some(b) => Some(
            Element {
                start: b.start as int,
                inner_start: b.inner_start as int,
                inner_end: b.inner_end as int,
                end: b.end as int,
            },
        ),
        None => None,
    }
}

fn tag_range<B: VimBuffer>(buf: &B, offset: usize, inner: bool) -> (r: Option<ObjectRange>)
    ensures
        extent_of(r) == tag_object(buf.doc(), offset as int, inner),
{
    let tags = scan_tags(buf);
    let ghost all = marks(tags@);
    // match pairs; find the innermost pair containing the cursor
    let mut stack: Vec<Tag> = Vec::new();
    let mut best: Option<Bounds> = None;
    let mut i: usize = 0;
    proof {
        assert(marks(stack@) =~= Seq::<TagMark>::empty());
    }
    while i < tags.len()
        invariant
            i <= tags.len(),
            all == marks(tags@),
            enclosing(all, i as int, marks(stack@), element_of(best), offset as int) == enclosing(
                all,
                0,
                Seq::empty(),
                None,
                offset as int,
            ),
        decreases tags.len() - i,
    {
        let tag = &tags[i];
        proof {
            assert(all[i as int] == tag.mark());
        }
        let ghost before = marks(stack@);
        if tag.open {
            let name = sub_chars(&tag.name, 0, tag.name.len());
            proof {
                assert(name@ =~= tag.name@);
            }
            stack.push(Tag { start: tag.start, end: tag.end, name, open: true });
            proof {
                assert(marks(stack@) =~= before.push(tag.mark()));
            }
        } else if let Some(at) = find_named(&stack, &tag.name) {
            let found = Bounds {
                start: stack[at].start,
                inner_start: stack[at].end,
                inner_end: tag.start,
                end: tag.end,
            };
            proof {
                assert(before[at as int] == stack@[at as int].mark());
            }
            stack.truncate(at);
            proof {
                assert(marks(stack@) =~= before.take(at as int));
            }
            if found.start < offset && offset < found.end {
                let better = match best {
                    Some(b) => b.start < found.start,
                    None => true,
                };
                if better {
                    best = Some(found);
                }
            }
        }
        i = i + 1;
    }
    match best {
        Some(b) => if !inner {
            Some(ObjectRange::charwise(b.start, b.end))
        } else if b.inner_start < b.inner_end {
            Some(ObjectRange::charwise(b.inner_start, b.inner_end))
        } else {
            None
        },
        None => None,
    }
}

// ---- all of them -------------------------------------------------------------------

impl TextObject {
    /// Where the object around or behind `o` lies, if there is one.
    pub open spec fn extent(self, d: Doc, o: int) -> Option<Extent> {
        match self {
            TextObject::Word { inner, big } => Some(word_object(d, o, inner, big)),
            TextObject::Sentence { inner } => Some(sentence_object(d, o, inner)),
            TextObject::Paragraph { inner } => Some(paragraph_object(d, o, inner)),
            TextObject::Quote { inner, quote } => quote_object(d, o, inner, quote),
            TextObject::Block { inner, open, close } => block_object(d, o, inner, open, close),
            TextObject::Tag { inner } => tag_object(d, o, inner),
        }
    }
}

/// The span the object covers at `offset`, or `None` when there is none.
pub fn range<B: VimBuffer>(buf: &B, offset: usize, obj: TextObject) -> (r: Option<ObjectRange>)
    ensures
        extent_of(r) == obj.extent(buf.doc(), offset as int),
{
    match obj {
        TextObject::Word { inner, big } => Some(word_range(buf, offset, inner, big)),
        TextObject::Sentence { inner } => Some(sentence_range(buf, offset, inner)),
        TextObject::Paragraph { inner } => Some(paragraph_range(buf, offset, inner)),
        TextObject::Quote { inner, quote } => quote_range(buf, offset, inner, quote),
        TextObject::Block { inner, open, close } => block_range(buf, offset, inner, open, close),
        TextObject::Tag { inner } => tag_range(buf, offset, inner),
    }
}

} // verus!
