//! `x`, `r`, `~`, `gq` and the operators themselves.
use crate::buffer::{clamp_to_line_end, next_grapheme_offset, VimBuffer, VimBufferMut};
use crate::cells::{char_len, width};
use crate::doc::{max, min, Doc};
use crate::edits::{
    behind, delete_span, run_of, run_text, toggle_case, toggled, yank_span,
};
use crate::format::{format_lines, formatted, joined};
use crate::host::{hears, VimHost};
use crate::motions::next_cluster;
use crate::ops::{span, OpSpan, Operator};
use crate::shift::plus;
use crate::state::{Ctx, InsertKind, Vim, VimState, World};
use crate::strs::{byte_len, chars_of, string_of, texts};
use vstd::prelude::*;

verus! {

// ---- x / X ------------------------------------------------------------------------------------------

/// `n` characters back from `o`, not before `from`.
pub open spec fn chars_back(d: Doc, o: int, from: int, n: int) -> int
    decreases n,
{
    if n <= 0 {
        o
    } else {
        match d.prev(o) {
            Some(p) => if p >= from {
                chars_back(d, p, from, n - 1)
            } else {
                o
            },
            None => o,
        }
    }
}

fn go_chars_back<B: VimBuffer>(buf: &B, from: usize, line_start: usize, count: usize) -> (r: usize)
    ensures
        r == chars_back(buf.doc(), from as int, line_start as int, count as int),
{
    let ghost d = buf.doc();
    let mut o: usize = from;
    let mut left: usize = count;
    while left > 0
        invariant
            d == buf.doc(),
            chars_back(d, o as int, line_start as int, left as int) == chars_back(
                d,
                from as int,
                line_start as int,
                count as int,
            ),
        decreases left,
    {
        match buf.prev_char_offset(o) {
            Some(p) => {
                if p < line_start {
                    return o;
                }
                o = p;
            },
            None => {
                return o;
            },
        }
        left = left - 1;
    }
    o
}

/// `n` clusters on from `o`, staying before `end`.
pub open spec fn clusters_on(d: Doc, o: int, end: int, n: int) -> int
    decreases n,
{
    if n <= 0 {
        o
    } else {
        match next_cluster(d, o) {
            Some(next) => if next >= end {
                o
            } else {
                clusters_on(d, next, end, n - 1)
            },
            None => o,
        }
    }
}

fn go_clusters_on<B: VimBuffer>(buf: &B, from: usize, end: usize, count: usize) -> (r: usize)
    ensures
        r == clusters_on(buf.doc(), from as int, end as int, count as int),
{
    let ghost d = buf.doc();
    let mut o: usize = from;
    let mut left: usize = count;
    while left > 0
        invariant
            d == buf.doc(),
            clusters_on(d, o as int, end as int, left as int) == clusters_on(
                d,
                from as int,
                end as int,
                count as int,
            ),
        decreases left,
    {
        match next_grapheme_offset(buf, o) {
            Some(next) => {
                if next >= end {
                    return o;
                }
                o = next;
            },
            None => {
                return o;
            },
        }
        left = left - 1;
    }
    o
}

/// What `x` or `X` deletes, if anything: `count` characters of the line.
pub open spec fn chars_span(d: Doc, o: int, count: int, backward: bool) -> Option<OpSpan> {
    let line = d.line_of(o);
    if backward {
        let lo = chars_back(d, o, d.line_start(line), count);
        if lo == o {
            None
        } else {
            Some(span(lo, o, false))
        }
    } else if o >= d.line_end(line) {
        None
    } else {
        let hi = clusters_on(d, o, d.line_end(line), count - 1);
        Some(
            span(
                o,
                match next_cluster(d, hi) {
                    Some(n) => n,
                    None => hi,
                },
                false,
            ),
        )
    }
}

impl World {
    #[verifier::opaque]
    pub open spec fn delete_chars<B: VimBufferMut>(self, count: int, backward: bool) -> World {
        match chars_span(self.doc, self.cursor(), count, backward) {
            Some(s) => self.delete_span::<B>(s, None),
            None => self,
        }
    }
}

fn span_of_chars<B: VimBuffer>(buf: &B, start: usize, count: usize, backward: bool) -> (r: Option<
    OpSpan,
>)
    ensures
        r == chars_span(buf.doc(), start as int, count as int, backward),
{
    let line = buf.offset_to_line(start);
    if backward {
        let lo = go_chars_back(buf, start, buf.line_start(line), count);
        if lo == start {
            return None;
        }
        Some(OpSpan { start: lo, end: start, linewise: false })
    } else {
        let line_end = buf.line_end(line);
        if start >= line_end {
            return None;
        }
        let rest: usize = if count >= 1 {
            count - 1
        } else {
            0
        };
        let hi = go_clusters_on(buf, start, line_end, rest);
        let end = match next_grapheme_offset(buf, hi) {
            Some(n) => n,
            None => hi,
        };
        Some(OpSpan { start, end, linewise: false })
    }
}

/// `x` / `X`: delete `count` chars under/before the cursor.
pub fn delete_chars<B: VimBufferMut, H: VimHost>(
    vim: &mut VimState,
    ctx: &mut Ctx<B, H>,
    count: usize,
    backward: bool,
)
    ensures
        *final(final(ctx).buf) == *final(old(ctx).buf),
        *final(final(ctx).host) == *final(old(ctx).host),
        hears(*final(ctx).host, final(vim)@.told, *old(ctx).host, old(vim)@.told),
        final(ctx).world(*final(vim)) == old(ctx).world(*old(vim)).delete_chars::<B>(
            count as int,
            backward,
        ),
{
    proof {
        reveal(World::delete_chars);
    }
    match span_of_chars(&*ctx.buf, vim.cursor.offset, count, backward) {
        Some(s) => delete_span(vim, ctx, &s, None),
        None => {},
    }
}

// ---- r / ~ --------------------------------------------------------------------------------------------

/// Where the `n`-th character from `o` ends, if there are so many before
/// `end`.
pub open spec fn nth_stop(d: Doc, o: int, end: int, n: int) -> Option<int>
    decreases n,
{
    if n <= 0 {
        Some(o)
    } else if o >= end {
        None
    } else {
        match d.next(o) {
            Some(next) => nth_stop(d, next, end, n - 1),
            None => None,
        }
    }
}

/// Characters counted before a boundary end at it at the latest: what `r`
/// replaces never crosses the end of the line.
pub proof fn counted_characters_end_before(d: Doc, o: int, end: int, n: int)
    requires
        d.wf(),
        0 <= o <= end <= d.len(),
        d.at_boundary(o),
        d.at_boundary(end),
    ensures
        nth_stop(d, o, end, n) matches Some(stop) ==> o <= stop <= end && d.at_boundary(stop),
    decreases n,
{
    d.lemma_char_fits(o);
    if n > 0 && o < end {
        if let Some(next) = d.next(o) {
            if next > end {
                assert(crate::cells::char_fits(d.cells, o));
                assert(d.cells[end] is None);
            }
            counted_characters_end_before(d, next, end, n - 1);
        }
    }
}

fn find_nth_stop<B: VimBuffer>(buf: &B, from: usize, end: usize, count: usize) -> (r: Option<usize>)
    ensures
        match r {
            Some(o) => nth_stop(buf.doc(), from as int, end as int, count as int) == Some(o as int),
            None => nth_stop(buf.doc(), from as int, end as int, count as int) is None,
        },
{
    let ghost d = buf.doc();
    let mut o: usize = from;
    let mut left: usize = count;
    while left > 0
        invariant
            d == buf.doc(),
            nth_stop(d, o as int, end as int, left as int) == nth_stop(
                d,
                from as int,
                end as int,
                count as int,
            ),
        decreases left,
    {
        if o >= end {
            return None;
        }
        match buf.next_char_offset(o) {
            Some(next) => {
                o = next;
            },
            None => {
                return None;
            },
        }
        left = left - 1;
    }
    Some(o)
}

impl World {
    /// `count` characters replaced by `ch`, the cursor on the last of them;
    /// nothing happens when the line has not so many.
    #[verifier::opaque]
    pub open spec fn replace_chars<B: VimBufferMut>(self, ch: char, count: int) -> World {
        let n = max(count, 1);
        let start = self.cursor();
        match nth_stop(self.doc, start, self.doc.line_end(self.line()), n) {
            Some(stop) => {
                let w = self.edit_replace::<B>(start, stop, run_of(ch, n));
                w.moved_to(w.doc.clamp(max(behind(start, run_of(ch, n)) - width(ch), 0)))
            },
            None => self,
        }
    }
}

/// `r{char}`: replace `count` chars with `char` (never crosses the line end).
pub fn replace_chars<B: VimBufferMut, H: VimHost>(
    vim: &mut VimState,
    ctx: &mut Ctx<B, H>,
    ch: char,
    count: usize,
)
    ensures
        *final(final(ctx).buf) == *final(old(ctx).buf),
        *final(final(ctx).host) == *final(old(ctx).host),
        hears(*final(ctx).host, final(vim)@.told, *old(ctx).host, old(vim)@.told),
        final(ctx).world(*final(vim)) == old(ctx).world(*old(vim)).replace_chars::<B>(
            ch,
            count as int,
        ),
        final(ctx).env() == old(ctx).env(),
{
    proof {
        reveal(World::replace_chars);
    }
    let count: usize = if count >= 1 {
        count
    } else {
        1
    };
    let start = vim.cursor.offset;
    let line_end = ctx.buf.line_end(ctx.buf.offset_to_line(start));
    let stop = match find_nth_stop(&*ctx.buf, start, line_end, count) {
        Some(stop) => stop,
        None => {
            return;
        },
    };
    let replacements = run_text(ch, count);
    vim.edit_replace(ctx, start..stop, replacements.as_str());
    let end = plus(start, byte_len(replacements.as_str()));
    let len = char_len(ch);
    vim.place_in_line(
        ctx,
        if end >= len {
            end - len
        } else {
            0
        },
    );
}

/// `n` characters on from `o`, as far as there are characters before `end`.
pub open spec fn chars_on(d: Doc, o: int, end: int, n: int) -> int
    decreases n,
{
    if n <= 0 || o >= end {
        o
    } else {
        match d.next(o) {
            Some(next) => chars_on(d, next, end, n - 1),
            None => o,
        }
    }
}

/// Those characters with their case changed.
pub open spec fn toggled_on(d: Doc, o: int, end: int, n: int) -> Seq<char>
    decreases n,
{
    if n <= 0 || o >= end {
        Seq::empty()
    } else {
        match d.char_at(o) {
            Some(c) => toggled(c) + toggled_on(d, o + width(c), end, n - 1),
            None => Seq::empty(),
        }
    }
}

fn toggle_on<B: VimBuffer>(buf: &B, from: usize, end: usize, count: usize) -> (r: (usize, String))
    ensures
        r.0 == chars_on(buf.doc(), from as int, end as int, count as int),
        r.1@ == toggled_on(buf.doc(), from as int, end as int, count as int),
{
    let ghost d = buf.doc();
    proof {
        buf.doc_wf();
    }
    let mut mapped = String::new();
    let mut o: usize = from;
    let mut left: usize = count;
    let ghost all = toggled_on(d, from as int, end as int, count as int);
    proof {
        assert(mapped@ + all =~= all);
    }
    while left > 0 && o < end
        invariant_except_break
            d == buf.doc(),
            d.wf(),
            chars_on(d, o as int, end as int, left as int) == chars_on(
                d,
                from as int,
                end as int,
                count as int,
            ),
            mapped@ + toggled_on(d, o as int, end as int, left as int) == all,
        ensures
            o == chars_on(d, from as int, end as int, count as int),
            mapped@ == all,
        decreases left,
    {
        proof {
            d.lemma_char_fits(o as int);
            assert(mapped@ + Seq::<char>::empty() =~= mapped@);
        }
        let c = match buf.char_at(o) {
            Some(c) => c,
            None => {
                break;
            },
        };
        let t = toggle_case(c);
        let ghost before = mapped@;
        mapped.push_str(t.as_str());
        proof {
            let rest = toggled_on(d, o + width(c), end as int, left - 1);
            assert((before + toggled(c)) + rest =~= before + (toggled(c) + rest));
        }
        o = o + char_len(c);
        left = left - 1;
        proof {
            assert(mapped@ + Seq::<char>::empty() =~= mapped@);
        }
    }
    (o, mapped)
}

impl World {
    /// The case of `count` characters changed, the cursor behind them.
    #[verifier::opaque]
    pub open spec fn toggle_chars<B: VimBufferMut>(self, count: int) -> World {
        let start = self.cursor();
        let end = self.doc.line_end(self.line());
        let mapped = toggled_on(self.doc, start, end, max(count, 1));
        if mapped.len() == 0 {
            self
        } else {
            let w = self.edit_replace::<B>(
                start,
                chars_on(self.doc, start, end, max(count, 1)),
                mapped,
            );
            w.moved_to(w.doc.clamp(behind(start, mapped)))
        }
    }
}

/// `~`: toggle case of `count` chars, cursor ends behind the last one.
pub fn toggle_chars<B: VimBufferMut, H: VimHost>(
    vim: &mut VimState,
    ctx: &mut Ctx<B, H>,
    count: usize,
)
    ensures
        *final(final(ctx).buf) == *final(old(ctx).buf),
        *final(final(ctx).host) == *final(old(ctx).host),
        hears(*final(ctx).host, final(vim)@.told, *old(ctx).host, old(vim)@.told),
        final(ctx).world(*final(vim)) == old(ctx).world(*old(vim)).toggle_chars::<B>(count as int),
        final(ctx).env() == old(ctx).env(),
{
    proof {
        reveal(World::toggle_chars);
    }
    let count: usize = if count >= 1 {
        count
    } else {
        1
    };
    let start = vim.cursor.offset;
    let line_end = ctx.buf.line_end(ctx.buf.offset_to_line(start));
    let (stop, mapped) = toggle_on(&*ctx.buf, start, line_end, count);
    if mapped.as_str().is_empty() {
        return;
    }
    vim.edit_replace(ctx, start..stop, mapped.as_str());
    // vim's `~` moves right past the last toggled char (staying on it only
    // at line end)
    let end = plus(start, byte_len(mapped.as_str()));
    vim.place_in_line(ctx, end);
}

// ---- gq -----------------------------------------------------------------------------------------------

/// The texts of the lines from `first` to `last`.
pub open spec fn line_texts(d: Doc, first: int, last: int) -> Seq<Seq<char>> {
    Seq::new(
        (last - first + 1) as nat,
        |k: int| d.slice(d.line_start(first + k), d.line_end(first + k)),
    )
}

fn read_lines<B: VimBuffer>(buf: &B, first: usize, last: usize) -> (r: Vec<Vec<char>>)
    requires
        first <= last < buf.doc().line_count(),
    ensures
        texts(r@) == line_texts(buf.doc(), first as int, last as int),
{
    let ghost d = buf.doc();
    let ghost all = line_texts(d, first as int, last as int);
    proof {
        buf.doc_wf();
    }
    let mut r: Vec<Vec<char>> = Vec::new();
    let mut k: usize = 0;
    let n: usize = last - first + 1;
    while k < n
        invariant
            d == buf.doc(),
            d.wf(),
            first <= last < d.line_count(),
            n == last - first + 1,
            k <= n,
            all == line_texts(d, first as int, last as int),
            texts(r@) == all.take(k as int),
        decreases n - k,
    {
        let t = chars_of(buf.line_content(first + k).as_str());
        let ghost before = texts(r@);
        let ghost seen = t@;
        r.push(t);
        proof {
            assert(texts(r@) =~= before.push(seen));
            assert(all[k as int] == seen);
            assert(all.take(k + 1) =~= before.push(seen));
        }
        k = k + 1;
    }
    proof {
        assert(all.take(k as int) =~= all);
    }
    r
}

fn join_text(lines: &Vec<Vec<char>>) -> (s: String)
    ensures
        s@ == joined(texts(lines@)),
{
    let ghost all = texts(lines@);
    let mut s = String::new();
    let mut i: usize = 0;
    proof {
        assert(all.take(0) =~= Seq::<Seq<char>>::empty());
        assert(s@ =~= joined(all.take(0)));
    }
    while i < lines.len()
        invariant
            i <= lines.len(),
            all == texts(lines@),
            all.len() == lines.len(),
            s@ == joined(all.take(i as int)),
        decreases lines.len() - i,
    {
        let ghost before = s@;
        if i > 0 {
            s.push('\n');
        }
        let t = string_of(&lines[i], 0, lines[i].len());
        s.push_str(t.as_str());
        proof {
            assert(t@ =~= lines@[i as int]@);
            assert(all[i as int] == t@);
            assert(all.take(i + 1).drop_last() =~= all.take(i as int));
            assert(all.take(i + 1).last() == t@);
            if i == 0 {
                assert(before =~= Seq::<char>::empty());
                assert(s@ =~= t@);
            }
        }
        i = i + 1;
    }
    proof {
        assert(all.take(i as int) =~= all);
    }
    s
}

/// The text width to format to; without one, what fits a terminal.
pub open spec fn format_width(v: Vim) -> int {
    if v.options.textwidth == 0 || v.options.textwidth == usize::MAX {
        79
    } else {
        v.options.textwidth as int
    }
}

/// The last line that a span touches.
pub open spec fn last_line_of(d: Doc, s: OpSpan) -> int {
    d.line_of(max(max(s.end - 1, 0), s.start as int))
}

pub(crate) fn last_line<B: VimBuffer>(buf: &B, s: &OpSpan) -> (r: usize)
    ensures
        r == last_line_of(buf.doc(), *s),
{
    let before: usize = if s.end >= 1 {
        s.end - 1
    } else {
        0
    };
    buf.offset_to_line(
        if before >= s.start {
            before
        } else {
            s.start
        },
    )
}

impl World {
    /// The lines of a span formatted, the cursor on the last of them.
    #[verifier::opaque]
    pub open spec fn format_span<B: VimBufferMut>(self, s: OpSpan) -> World {
        let first = self.doc.line_of(s.start as int);
        let last = last_line_of(self.doc, s);
        let lines = formatted(line_texts(self.doc, first, last), format_width(self.vim));
        let w = self.edit_replace::<B>(
            self.doc.line_start(first),
            self.doc.line_end(last),
            joined(lines),
        );
        w.moved_to(
            w.doc.first_non_blank(
                min(
                    min(first + max(lines.len() as int, 1) - 1, usize::MAX as int),
                    w.doc.line_count() - 1,
                ),
            ),
        )
    }
}

fn format_span<B: VimBufferMut, H: VimHost>(vim: &mut VimState, ctx: &mut Ctx<B, H>, s: &OpSpan)
    ensures
        *final(final(ctx).buf) == *final(old(ctx).buf),
        *final(final(ctx).host) == *final(old(ctx).host),
        hears(*final(ctx).host, final(vim)@.told, *old(ctx).host, old(vim)@.told),
        final(ctx).world(*final(vim)) == old(ctx).world(*old(vim)).format_span::<B>(*s),
        final(ctx).env() == old(ctx).env(),
{
    proof {
        reveal(World::format_span);
        ctx.buf.doc_wf();
        ctx.buf.doc().lemma_line_of(s.start as int);
        ctx.buf.doc().lemma_line_of(max(max(s.end - 1, 0), s.start as int));
        lemma_line_order(
            ctx.buf.doc(),
            s.start as int,
            max(max(s.end - 1, 0), s.start as int),
        );
    }
    let first = ctx.buf.offset_to_line(s.start);
    let last = last_line(&*ctx.buf, s);
    let width: usize = if vim.options.textwidth == 0 || vim.options.textwidth == usize::MAX {
        79
    } else {
        vim.options.textwidth
    };
    let lines = read_lines(&*ctx.buf, first, last);
    let out = format_lines(&lines, width);
    let text = join_text(&out);
    let n: usize = if out.len() >= 1 {
        out.len() - 1
    } else {
        0
    };
    proof {
        assert(texts(out@).len() == out@.len());
    }
    let (from, to) = (ctx.buf.line_start(first), ctx.buf.line_end(last));
    vim.edit_replace(ctx, from..to, text.as_str());
    vim.place_on_line(ctx, plus(first, n));
}

/// Lines follow the order of the offsets in them.
pub proof fn lemma_line_order(d: Doc, a: int, b: int)
    requires
        d.wf(),
        0 <= a <= b,
    ensures
        d.line_of(a) <= d.line_of(b),
{
    d.lemma_line_of(a);
    d.lemma_line_of(b);
    if d.line_of(a) > d.line_of(b) {
        d.lemma_line_of_unique(b, d.line_of(b));
        assert(d.starts[d.line_of(b) + 1] <= d.starts[d.line_of(a)]);
    }
}

/// The last line of a span is not before its first.
pub proof fn lemma_last_line_of(d: Doc, s: OpSpan)
    requires
        d.wf(),
    ensures
        d.line_of(s.start as int) <= last_line_of(d, s) < d.line_count(),
{
    lemma_line_order(d, s.start as int, max(max(s.end - 1, 0), s.start as int));
    d.lemma_line_of(max(max(s.end - 1, 0), s.start as int));
}

// ---- operators ------------------------------------------------------------------------------------------

impl World {
    /// The lines of a span shifted, the cursor on the first of them.
    #[verifier::opaque]
    pub open spec fn indent_span<B: VimBufferMut>(self, s: OpSpan, right: bool) -> World {
        let first = self.doc.line_of(s.start as int);
        let w = self.shift_lines::<B>(first, last_line_of(self.doc, s), right);
        w.moved_to(w.doc.first_non_blank(min(first, w.doc.line_count() - 1)))
    }

    /// What a change keeps of a span of lines: the newline of the last.
    pub open spec fn change_extent(self, s: OpSpan) -> OpSpan {
        if s.linewise {
            span(s.start as int, self.doc.line_end(last_line_of(self.doc, s)), false)
        } else {
            s
        }
    }

    /// The indent that a change of whole lines keeps.
    pub open spec fn kept_indent<B: VimBuffer>(self, s: OpSpan) -> Seq<char> {
        if s.linewise {
            let first = self.doc.line_of(s.start as int);
            let start = self.doc.line_start(first);
            B::piece(self.doc, start, start + self.doc.indent(first))
        } else {
            Seq::empty()
        }
    }

    /// The span deleted and an insert session begun in its place. Whole lines
    /// leave one line with the indent of the first.
    #[verifier::opaque]
    pub open spec fn change_span<B: VimBufferMut>(self, s: OpSpan, register: Option<char>) -> World {
        let indent = self.kept_indent::<B>(s);
        let w = self.delete_span::<B>(self.change_extent(s), register);
        let at = w.cursor();
        if indent.len() > 0 {
            w.edit_insert::<B>(at, indent).at(behind(at, indent)).begin_insert(InsertKind::Change)
        } else {
            w.begin_insert(InsertKind::Change)
        }
    }

    #[verifier::opaque]
    pub open spec fn operate<B: VimBufferMut>(
        self,
        op: Operator,
        s: OpSpan,
        register: Option<char>,
    ) -> World {
        match op {
            Operator::Delete => self.delete_span::<B>(s, register),
            Operator::Yank => self.yank_span::<B>(s, register),
            Operator::Change => self.change_span::<B>(s, register),
            Operator::IndentLeft => self.indent_span::<B>(s, false),
            Operator::IndentRight => self.indent_span::<B>(s, true),
            Operator::Lowercase | Operator::Uppercase | Operator::ToggleCase => self.recase::<B>(
                op,
                s,
            ),
            Operator::Format => self.format_span::<B>(s),
        }
    }

    /// An operator applied to a span; the cursor is not behind its line.
    #[verifier::opaque]
    pub open spec fn apply<B: VimBufferMut>(
        self,
        op: Operator,
        s: OpSpan,
        register: Option<char>,
    ) -> World {
        let w = self.operate::<B>(op, s, register);
        w.at(w.doc.clamp(w.cursor()))
    }
}

fn indent_span<B: VimBufferMut, H: VimHost>(
    vim: &mut VimState,
    ctx: &mut Ctx<B, H>,
    s: &OpSpan,
    right: bool,
)
    ensures
        *final(final(ctx).buf) == *final(old(ctx).buf),
        *final(final(ctx).host) == *final(old(ctx).host),
        hears(*final(ctx).host, final(vim)@.told, *old(ctx).host, old(vim)@.told),
        final(ctx).world(*final(vim)) == old(ctx).world(*old(vim)).indent_span::<B>(*s, right),
        final(ctx).env() == old(ctx).env(),
{
    proof {
        reveal(World::indent_span);
    }
    let first = ctx.buf.offset_to_line(s.start);
    let last = last_line(&*ctx.buf, s);
    crate::edits::shift_lines(vim, ctx, first, last, right);
    vim.place_on_line(ctx, first);
}

fn change_span<B: VimBufferMut, H: VimHost>(
    vim: &mut VimState,
    ctx: &mut Ctx<B, H>,
    s: &OpSpan,
    register: Option<char>,
)
    ensures
        *final(final(ctx).buf) == *final(old(ctx).buf),
        *final(final(ctx).host) == *final(old(ctx).host),
        hears(*final(ctx).host, final(vim)@.told, *old(ctx).host, old(vim)@.told),
        final(ctx).world(*final(vim)) == old(ctx).world(*old(vim)).change_span::<B>(*s, register),
{
    proof {
        reveal(World::change_span);
    }
    if s.linewise {
        // keep the indent of the first line when changing linewise
        let indent = first_indent(&*ctx.buf, s);
        // `cc` clears the lines' contents but the lines themselves
        // survive: never consume the last newline of the span
        let end = ctx.buf.line_end(last_line(&*ctx.buf, s));
        let extent = OpSpan { start: s.start, end, linewise: false };
        delete_span(vim, ctx, &extent, register);
        vim.insert_and_begin(ctx, indent.as_str());
    } else {
        delete_span(vim, ctx, s, register);
        vim.begin_insert(ctx, InsertKind::Change);
    }
}

fn first_indent<B: VimBuffer>(buf: &B, s: &OpSpan) -> (t: String)
    ensures
        t@ == ({
            let first = buf.doc().line_of(s.start as int);
            let start = buf.doc().line_start(first);
            B::piece(buf.doc(), start, start + buf.doc().indent(first))
        }),
{
    let first = buf.offset_to_line(s.start);
    proof {
        buf.doc_wf();
        buf.doc().lemma_line_bounds(first as int);
        buf.doc().lemma_first_non_blank(first as int);
    }
    let (indent, _) = buf.line_indent(first);
    let start = buf.line_start(first);
    buf.slice(start..start + indent)
}

impl VimState {
    /// Inserts an indent at the cursor, if there is one, and begins to insert
    /// behind it.
    fn insert_and_begin<B: VimBufferMut, H: VimHost>(&mut self, ctx: &mut Ctx<B, H>, indent: &str)
        ensures
            *final(final(ctx).buf) == *final(old(ctx).buf),
            *final(final(ctx).host) == *final(old(ctx).host),
            hears(*final(ctx).host, final(self)@.told, *old(ctx).host, old(self)@.told),
            final(ctx).world(*final(self)) == ({
                let w = old(ctx).world(*old(self));
                if indent@.len() > 0 {
                    w.edit_insert::<B>(w.cursor(), indent@).at(
                        behind(w.cursor(), indent@),
                    ).begin_insert(InsertKind::Change)
                } else {
                    w.begin_insert(InsertKind::Change)
                }
            }),
            final(ctx).env() == old(ctx).env(),
    {
        if indent.is_empty() {
            self.begin_insert(ctx, InsertKind::Change);
            return;
        }
        let at = self.cursor.offset;
        self.edit_insert(ctx, at, indent);
        self.set_offset(plus(at, byte_len(indent)));
        self.begin_insert(ctx, InsertKind::Change);
    }

    /// Keeps the cursor from standing behind its line.
    pub(crate) fn clamp_cursor<B: VimBufferMut, H: VimHost>(&mut self, ctx: &mut Ctx<B, H>)
        ensures
            *final(final(ctx).buf) == *final(old(ctx).buf),
            *final(final(ctx).host) == *final(old(ctx).host),
            hears(*final(ctx).host, final(self)@.told, *old(ctx).host, old(self)@.told),
            final(ctx).world(*final(self)) == ({
                let w = old(ctx).world(*old(self));
                w.at(w.doc.clamp(w.cursor()))
            }),
            final(ctx).env() == old(ctx).env(),
    {
        let at = clamp_to_line_end(&*ctx.buf, self.cursor.offset);
        self.set_offset(at);
    }
}

fn operate<B: VimBufferMut, H: VimHost>(
    vim: &mut VimState,
    ctx: &mut Ctx<B, H>,
    op: Operator,
    s: &OpSpan,
    register: Option<char>,
)
    ensures
        *final(final(ctx).buf) == *final(old(ctx).buf),
        *final(final(ctx).host) == *final(old(ctx).host),
        hears(*final(ctx).host, final(vim)@.told, *old(ctx).host, old(vim)@.told),
        final(ctx).world(*final(vim)) == old(ctx).world(*old(vim)).operate::<B>(op, *s, register),
{
    proof {
        reveal(World::operate);
    }
    match op {
        Operator::Delete => delete_span(vim, ctx, s, register),
        Operator::Yank => yank_span(vim, ctx, s, register),
        Operator::Change => change_span(vim, ctx, s, register),
        Operator::IndentLeft => indent_span(vim, ctx, s, false),
        Operator::IndentRight => indent_span(vim, ctx, s, true),
        Operator::Lowercase | Operator::Uppercase | Operator::ToggleCase => {
            crate::edits::recase_span(vim, ctx, op, s)
        },
        Operator::Format => format_span(vim, ctx, s),
    }
}

/// Apply an operator to a span (operator-pending and visual paths).
pub fn apply<B: VimBufferMut, H: VimHost>(
    vim: &mut VimState,
    ctx: &mut Ctx<B, H>,
    op: Operator,
    span: &OpSpan,
    register: Option<char>,
)
    ensures
        *final(final(ctx).buf) == *final(old(ctx).buf),
        *final(final(ctx).host) == *final(old(ctx).host),
        hears(*final(ctx).host, final(vim)@.told, *old(ctx).host, old(vim)@.told),
        final(ctx).world(*final(vim)) == old(ctx).world(*old(vim)).apply::<B>(op, *span, register),
{
    proof {
        reveal(World::apply);
    }
    operate(vim, ctx, op, span, register);
    vim.clamp_cursor(ctx);
}

} // verus!
