//! `<C-a>` and `<C-x>`: counting the number at the cursor up and down.
use crate::buffer::{VimBuffer, VimBufferMut};
use crate::cells::cells;
use crate::doc::{min, Doc};
use crate::edits::behind;
use crate::host::{hears, VimHost};
use crate::shift::plus;
use crate::state::{Ctx, VimState, World};
use crate::strs::{byte_len, char_is_digit, digit_value, is_digit, push_decimal, signed_decimal};
use vstd::prelude::*;

verus! {

/// A decimal digit stands at `o`.
pub open spec fn digit_at(d: Doc, o: int) -> bool {
    d.char_at(o) is Some && is_digit(d.char_at(o)->0)
}

fn is_digit_at<B: VimBuffer>(buf: &B, o: usize) -> (b: bool)
    ensures
        b == digit_at(buf.doc(), o as int),
{
    match buf.char_at(o) {
        Some(c) => char_is_digit(c),
        None => false,
    }
}

/// The first digit from `o` on, before `end`.
pub open spec fn digit_from(d: Doc, o: int, end: int) -> Option<int>
    decreases end - o,
{
    if o >= end {
        None
    } else if digit_at(d, o) {
        Some(o)
    } else {
        digit_from(d, o + 1, end)
    }
}

/// Where the digits before `o` begin, no further back than `start`.
pub open spec fn digits_back(d: Doc, o: int, start: int) -> int
    decreases o,
{
    if o > start && o > 0 && digit_at(d, o - 1) {
        digits_back(d, o - 1, start)
    } else {
        o
    }
}

/// Where the digits from `o` on end, no further on than `end`.
pub open spec fn digits_on(d: Doc, o: int, end: int) -> int
    decreases end - o,
{
    if o < end && digit_at(d, o) {
        digits_on(d, o + 1, end)
    } else {
        o
    }
}

/// The number that the digits from `a` to `b` spell.
pub open spec fn run_value(d: Doc, a: int, b: int) -> int
    decreases b - a,
{
    if b <= a {
        0
    } else {
        run_value(d, a, b - 1) * 10 + (d.char_at(b - 1)->0 as u32 - '0' as u32)
    }
}

/// The number that the cursor is at: the one it stands on, or that ends its
/// line where it stands behind it, else the next one in its line. Given are
/// its first digit and the end of its digits.
pub open spec fn number_near(d: Doc, o: int) -> Option<(int, int)> {
    let line = d.line_of(o);
    let start = d.line_start(line);
    let end = d.line_end(line);
    let first = if digit_at(d, o) && o < end {
        Some(digits_back(d, o, start))
    } else if o >= end && digits_back(d, end, start) < end {
        Some(digits_back(d, end, start))
    } else {
        digit_from(d, o, end)
    };
    match first {
        Some(a) => Some((a, digits_on(d, a, end))),
        None => None,
    }
}

/// The number of `i64` that a sum comes round to.
pub open spec fn wrapped(n: int) -> int {
    if n > i64::MAX {
        n - 0x1_0000_0000_0000_0000
    } else if n < i64::MIN {
        n + 0x1_0000_0000_0000_0000
    } else {
        n
    }
}

/// A minus stands right before the digits.
pub open spec fn minus_before(d: Doc, a: int) -> bool {
    a > d.line_start(d.line_of(a)) && d.char_at(a - 1) == Some('-')
}

/// The number whose digits are `[a, b)`, as far as an `i64` goes.
pub open spec fn number_at(d: Doc, a: int, b: int) -> int {
    let n = min(run_value(d, a, b), i64::MAX as int);
    if minus_before(d, a) {
        -n
    } else {
        n
    }
}

impl World {
    /// The number whose digits are `[a, b)` counted on by `delta`, the cursor
    /// on its last digit.
    #[verifier::opaque]
    pub open spec fn count_number<B: VimBufferMut>(self, a: int, b: int, delta: int) -> World {
        let start = if minus_before(self.doc, a) {
            a - 1
        } else {
            a
        };
        let text = signed_decimal(wrapped(number_at(self.doc, a, b) + delta));
        let w = self.begin_edit().edit_replace::<B>(start, b, text).bump::<B>();
        w.moved_to(behind(start, text) - 1).end_edit()
    }
}

fn find_digit<B: VimBuffer>(buf: &B, from: usize, end: usize) -> (r: Option<usize>)
    ensures
        r is Some == digit_from(buf.doc(), from as int, end as int) is Some,
        r matches Some(o) ==> digit_from(buf.doc(), from as int, end as int) == Some(o as int),
{
    let mut o: usize = from;
    while o < end
        invariant
            digit_from(buf.doc(), from as int, end as int) == digit_from(
                buf.doc(),
                o as int,
                end as int,
            ),
        decreases end - o,
    {
        if is_digit_at(buf, o) {
            return Some(o);
        }
        o = o + 1;
    }
    None
}

fn go_digits_back<B: VimBuffer>(buf: &B, from: usize, start: usize) -> (r: usize)
    ensures
        r == digits_back(buf.doc(), from as int, start as int),
        r <= from,
{
    let mut o: usize = from;
    while o > start && is_digit_at(buf, o - 1)
        invariant
            o <= from,
            digits_back(buf.doc(), from as int, start as int) == digits_back(
                buf.doc(),
                o as int,
                start as int,
            ),
        decreases o,
    {
        o = o - 1;
    }
    o
}

fn go_digits_on<B: VimBuffer>(buf: &B, from: usize, end: usize) -> (r: usize)
    ensures
        r == digits_on(buf.doc(), from as int, end as int),
{
    let mut o: usize = from;
    while o < end && is_digit_at(buf, o)
        invariant
            digits_on(buf.doc(), from as int, end as int) == digits_on(
                buf.doc(),
                o as int,
                end as int,
            ),
        decreases end - o,
    {
        o = o + 1;
    }
    o
}

proof fn lemma_run_of_digits(d: Doc, a: int, o: int, end: int)
    requires
        a <= o <= digits_on(d, a, end),
    ensures
        digits_on(d, o, end) == digits_on(d, a, end),
        forall|i: int| a <= i < o ==> #[trigger] digit_at(d, i),
    decreases o - a,
{
    if a < o {
        lemma_run_of_digits(d, a + 1, o, end);
    }
}

proof fn lemma_more_digits(d: Doc, a: int, o: int)
    requires
        a <= o,
        forall|i: int| a <= i < o ==> #[trigger] digit_at(d, i),
    ensures
        run_value(d, a, o) >= 0,
    decreases o - a,
{
    if a < o {
        lemma_more_digits(d, a, o - 1);
        assert(digit_at(d, o - 1));
    }
}

fn read_number<B: VimBuffer>(buf: &B, a: usize, b: usize) -> (n: i64)
    requires
        forall|i: int| a <= i < b ==> #[trigger] digit_at(buf.doc(), i),
        a <= b,
    ensures
        n == min(run_value(buf.doc(), a as int, b as int), i64::MAX as int),
{
    let ghost d = buf.doc();
    let mut o: usize = a;
    let mut n: i64 = 0;
    while o < b
        invariant
            a <= o <= b,
            d == buf.doc(),
            0 <= n,
            n == min(run_value(d, a as int, o as int), i64::MAX as int),
            forall|i: int| a <= i < b ==> #[trigger] digit_at(d, i),
        decreases b - o,
    {
        proof {
            assert(digit_at(d, o as int));
            lemma_more_digits(d, a as int, o as int);
        }
        let digit: i64 = match buf.char_at(o) {
            Some(c) => digit_value(c) as i64,
            None => 0,
        };
        n = if n > (i64::MAX - digit) / 10 {
            i64::MAX
        } else {
            n * 10 + digit
        };
        o = o + 1;
    }
    n
}

fn wrap(n: i128) -> (r: i64)
    requires
        -0x2_0000_0000_0000_0000 < n < 0x2_0000_0000_0000_0000,
        i64::MIN <= wrapped(n as int) <= i64::MAX,
    ensures
        r == wrapped(n as int),
{
    if n > i64::MAX as i128 {
        (n - 0x1_0000_0000_0000_0000) as i64
    } else if n < i64::MIN as i128 {
        (n + 0x1_0000_0000_0000_0000) as i64
    } else {
        n as i64
    }
}

fn text_of_number(n: i64) -> (s: String)
    ensures
        s@ == signed_decimal(n as int),
{
    let mut s = String::new();
    if n < 0 {
        s.push('-');
        push_decimal(&mut s, (-(n as i128)) as u64);
        proof {
            assert(s@ =~= signed_decimal(n as int));
        }
    } else {
        push_decimal(&mut s, n as u64);
        proof {
            assert(s@ =~= signed_decimal(n as int));
        }
    }
    s
}

pub(crate) fn find_number<B: VimBuffer>(buf: &B, at: usize) -> (r: Option<(usize, usize)>)
    ensures
        match r {
            Some((a, b)) => number_near(buf.doc(), at as int) == Some((a as int, b as int)),
            None => number_near(buf.doc(), at as int) is None,
        },
{
    let line = buf.offset_to_line(at);
    let start = buf.line_start(line);
    let end = buf.line_end(line);
    let first = if at < end && is_digit_at(buf, at) {
        Some(go_digits_back(buf, at, start))
    } else if at >= end {
        let a = go_digits_back(buf, end, start);
        if a < end {
            Some(a)
        } else {
            find_digit(buf, at, end)
        }
    } else {
        find_digit(buf, at, end)
    };
    match first {
        Some(a) => Some((a, go_digits_on(buf, a, end))),
        None => None,
    }
}

/// The digits of a number that was found.
proof fn lemma_number_near(d: Doc, o: int)
    requires
        d.wf(),
        0 <= o,
    ensures
        number_near(d, o) matches Some((a, b)) ==> 0 <= a <= b && (forall|i: int|
            a <= i < b ==> #[trigger] digit_at(d, i)),
{
    let line = d.line_of(o);
    let start = d.line_start(line);
    let end = d.line_end(line);
    if let Some((a, b)) = number_near(d, o) {
        lemma_digits_on(d, a, end);
        lemma_run_of_digits(d, a, b, end);
        lemma_digits_back(d, o, start);
        lemma_digits_back(d, end, start);
        lemma_digit_from(d, o, end);
        d.lemma_line_of(o);
        d.lemma_line_bounds(line);
    }
}

proof fn lemma_digits_on(d: Doc, o: int, end: int)
    ensures
        o <= digits_on(d, o, end),
    decreases end - o,
{
    if o < end && digit_at(d, o) {
        lemma_digits_on(d, o + 1, end);
    }
}

proof fn lemma_digits_back(d: Doc, o: int, start: int)
    ensures
        digits_back(d, o, start) <= o,
        o >= 0 ==> digits_back(d, o, start) >= 0,
    decreases o,
{
    if o > start && o > 0 && digit_at(d, o - 1) {
        lemma_digits_back(d, o - 1, start);
    }
}

proof fn lemma_digit_from(d: Doc, o: int, end: int)
    ensures
        digit_from(d, o, end) matches Some(a) ==> o <= a < end,
    decreases end - o,
{
    if o < end && !digit_at(d, o) {
        lemma_digit_from(d, o + 1, end);
    }
}

fn has_minus_before<B: VimBuffer>(buf: &B, a: usize) -> (b: bool)
    ensures
        b == minus_before(buf.doc(), a as int),
{
    let start = buf.line_start(buf.offset_to_line(a));
    if a > start {
        match buf.char_at(a - 1) {
            Some(c) => c == '-',
            None => false,
        }
    } else {
        false
    }
}

fn counted<B: VimBuffer>(buf: &B, a: usize, b: usize, delta: i64) -> (s: String)
    requires
        a <= b,
        forall|i: int| a <= i < b ==> #[trigger] digit_at(buf.doc(), i),
    ensures
        s@ == signed_decimal(wrapped(number_at(buf.doc(), a as int, b as int) + delta)),
{
    proof {
        lemma_more_digits(buf.doc(), a as int, b as int);
    }
    let n = read_number(buf, a, b);
    let value: i128 = if has_minus_before(buf, a) {
        -(n as i128)
    } else {
        n as i128
    };
    let sum: i128 = value + delta as i128;
    text_of_number(wrap(sum))
}

impl VimState {
    fn count_number<B: VimBufferMut, H: VimHost>(
        &mut self,
        ctx: &mut Ctx<B, H>,
        a: usize,
        b: usize,
        delta: i64,
    )
        requires
            a <= b,
            forall|i: int| a <= i < b ==> #[trigger] digit_at(old(ctx).buf.doc(), i),
        ensures
            *final(final(ctx).buf) == *final(old(ctx).buf),
            *final(final(ctx).host) == *final(old(ctx).host),
            hears(*final(ctx).host, final(self)@.told, *old(ctx).host, old(self)@.told),
            final(ctx).world(*final(self)) == old(ctx).world(*old(self)).count_number::<B>(
                a as int,
                b as int,
                delta as int,
            ),
            final(ctx).env() == old(ctx).env(),
    {
        proof {
            reveal(World::count_number);
        }
        let text = counted(&*ctx.buf, a, b, delta);
        // include a preceding minus as sign when it is directly attached
        let start: usize = if has_minus_before(&*ctx.buf, a) {
            a - 1
        } else {
            a
        };
        proof {
            lemma_text_not_empty(
                wrapped(number_at(ctx.buf.doc(), a as int, b as int) + delta),
            );
        }
        self.begin_edit(ctx);
        self.edit_replace(ctx, start..b, text.as_str());
        self.bump(ctx);
        // cursor on the last digit of the new number
        let end = plus(start, byte_len(text.as_str()));
        self.place(end - 1);
        self.end_edit();
    }

    /// `C-a`/`C-x`: find the number at or after the cursor on this line and
    /// add `delta` to it, cursor on the last digit. Returns false when no
    /// number is found.
    pub(crate) fn increment_number_at_cursor<B: VimBufferMut, H: VimHost>(
        &mut self,
        ctx: &mut Ctx<B, H>,
        delta: i64,
    ) -> (found: bool)
        ensures
            *final(final(ctx).buf) == *final(old(ctx).buf),
            *final(final(ctx).host) == *final(old(ctx).host),
            hears(*final(ctx).host, final(self)@.told, *old(ctx).host, old(self)@.told),
            match number_near(old(ctx).buf.doc(), old(self)@.cursor.offset as int) {
                Some((a, b)) => found && final(ctx).world(*final(self)) == old(ctx).world(
                    *old(self),
                ).count_number::<B>(a, b, delta as int),
                None => !found && final(ctx).world(*final(self)) == old(ctx).world(*old(self)),
            },
            final(ctx).env() == old(ctx).env(),
    {
        match find_number(&*ctx.buf, self.cursor.offset) {
            Some((a, b)) => {
                proof {
                    ctx.buf.doc_wf();
                    lemma_number_near(ctx.buf.doc(), self.cursor.offset as int);
                }
                self.count_number(ctx, a, b, delta);
                true
            },
            None => false,
        }
    }
}

proof fn lemma_text_not_empty(n: int)
    ensures
        signed_decimal(n).len() > 0,
        cells(signed_decimal(n)).len() > 0,
{
    let s = signed_decimal(n);
    crate::strs::lemma_byte_len(s);
}

} // verus!
