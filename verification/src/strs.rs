//! Strings, character by character.
use crate::cells::{cells, char_cells, lemma_cells_concat};
use crate::chars::{is_white, white};
use vstd::prelude::*;

verus! {

/// The characters of a string.
pub fn chars_of(s: &str) -> (v: Vec<char>)
    ensures
        v@ == s@,
{
    let mut v: Vec<char> = Vec::new();
    let mut it = s.chars();
    for c in iter: it
        invariant
            v@ == iter.seq().take(iter.index() as int),
            iter.seq() == s@,
    {
        v.push(c);
    }
    v
}

/// The characters of `v` from `from` up to `to`, as a string.
pub fn string_of(v: &Vec<char>, from: usize, to: usize) -> (s: String)
    requires
        from <= to <= v.len(),
    ensures
        s@ == v@.subrange(from as int, to as int),
{
    let mut s = String::new();
    let mut i: usize = from;
    while i < to
        invariant
            from <= i <= to <= v.len(),
            s@ == v@.subrange(from as int, i as int),
        decreases to - i,
    {
        s.push(v[i]);
        i = i + 1;
    }
    s
}

/// The two sequences hold the same characters.
pub fn same_chars(a: &Vec<char>, b: &Vec<char>) -> (r: bool)
    ensures
        r == (a@ == b@),
{
    if a.len() != b.len() {
        return false;
    }
    let mut i: usize = 0;
    while i < a.len()
        invariant
            a.len() == b.len(),
            i <= a.len(),
            a@.take(i as int) == b@.take(i as int),
        decreases a.len() - i,
    {
        if a[i] != b[i] {
            proof {
                assert(a@[i as int] != b@[i as int]);
            }
            return false;
        }
        i = i + 1;
        proof {
            assert(a@.take(i as int) =~= a@.take(i - 1).push(a@[i - 1]));
            assert(b@.take(i as int) =~= b@.take(i - 1).push(b@[i - 1]));
        }
    }
    proof {
        assert(a@.take(i as int) =~= a@);
        assert(b@.take(i as int) =~= b@);
    }
    true
}

/// The two strings hold the same characters.
pub fn same_str(a: &str, b: &str) -> (r: bool)
    ensures
        r == (a@ == b@),
{
    same_chars(&chars_of(a), &chars_of(b))
}

/// A copy of a string.
pub fn copy_str(a: &str) -> (s: String)
    ensures
        s@ == a@,
{
    a.to_owned()
}

/// A string takes up one cell per byte.
pub proof fn lemma_byte_len(s: Seq<char>)
    ensures
        vstd::utf8::encode_utf8(s).len() == cells(s).len(),
    decreases s.len(),
{
    if s.len() > 0 {
        let rest = s.drop_first();
        lemma_byte_len(rest);
        assert(s =~= seq![s[0]] + rest);
        lemma_cells_concat(seq![s[0]], rest);
        assert(seq![s[0]].drop_last() =~= Seq::<char>::empty());
        assert(cells(seq![s[0]]) =~= char_cells(s[0])) by {
            assert(cells(Seq::<char>::empty()) =~= Seq::<Option<char>>::empty());
        }
        vstd::utf8::char_is_scalar(s[0]);
    }
}

/// Length of a string in bytes.
pub fn byte_len(s: &str) -> (n: usize)
    ensures
        n == cells(s@).len(),
{
    proof {
        lemma_byte_len(s@);
    }
    s.as_bytes().len()
}

/// Length of the run of characters that are not white space at the front.
pub open spec fn word_len(s: Seq<char>) -> int
    decreases s.len(),
{
    if s.len() == 0 || white(s[0]) {
        0
    } else {
        1 + word_len(s.drop_first())
    }
}

/// The words of a text: its runs of characters that are not white space.
pub open spec fn words(s: Seq<char>) -> Seq<Seq<char>>
    decreases s.len(),
    via words_decreases
{
    if s.len() == 0 {
        Seq::empty()
    } else if white(s[0]) {
        words(s.drop_first())
    } else {
        seq![s.take(word_len(s))] + words(s.skip(word_len(s)))
    }
}

#[via_fn]
proof fn words_decreases(s: Seq<char>) {
    lemma_word_len(s);
}

pub proof fn lemma_word_len(s: Seq<char>)
    ensures
        0 <= word_len(s) <= s.len(),
        s.len() > 0 && !white(s[0]) ==> word_len(s) > 0,
        forall|i: int| 0 <= i < word_len(s) ==> !white(#[trigger] s[i]),
        word_len(s) < s.len() ==> white(s[word_len(s)]),
    decreases s.len(),
{
    if s.len() > 0 && !white(s[0]) {
        lemma_word_len(s.drop_first());
        assert forall|i: int| 0 <= i < word_len(s) implies !white(#[trigger] s[i]) by {
            if i > 0 {
                assert(s[i] == s.drop_first()[i - 1]);
            }
        }
    }
}

/// A list of character lists, as a sequence of texts.
pub open spec fn texts(v: Seq<Vec<char>>) -> Seq<Seq<char>> {
    v.map_values(|t: Vec<char>| t@)
}

/// The characters of `v` from `from` up to `to`.
pub fn sub_chars(v: &Vec<char>, from: usize, to: usize) -> (r: Vec<char>)
    requires
        from <= to <= v.len(),
    ensures
        r@ == v@.subrange(from as int, to as int),
{
    let mut r: Vec<char> = Vec::new();
    let mut i: usize = from;
    while i < to
        invariant
            from <= i <= to <= v.len(),
            r@ == v@.subrange(from as int, i as int),
        decreases to - i,
    {
        r.push(v[i]);
        i = i + 1;
    }
    r
}

/// The words of a text, in order.
pub fn split_words(v: &Vec<char>) -> (r: Vec<Vec<char>>)
    ensures
        texts(r@) == words(v@),
{
    let mut r: Vec<Vec<char>> = Vec::new();
    let mut i: usize = 0;
    proof {
        assert(v@.skip(0) =~= v@);
        assert(texts(r@) + words(v@) =~= words(v@));
    }
    while i < v.len()
        invariant
            i <= v.len(),
            texts(r@) + words(v@.skip(i as int)) == words(v@),
        decreases v.len() - i,
    {
        let ghost rest = v@.skip(i as int);
        proof {
            assert(rest[0] == v@[i as int]);
        }
        if is_white(v[i]) {
            proof {
                assert(rest.drop_first() =~= v@.skip(i + 1));
            }
            i = i + 1;
        } else {
            let mut j: usize = i;
            while j < v.len() && !is_white(v[j])
                invariant
                    i <= j <= v.len(),
                    rest == v@.skip(i as int),
                    word_len(rest) == (j - i) + word_len(v@.skip(j as int)),
                decreases v.len() - j,
            {
                proof {
                    assert(v@.skip(j as int).drop_first() =~= v@.skip(j + 1));
                    assert(v@.skip(j as int)[0] == v@[j as int]);
                }
                j = j + 1;
            }
            proof {
                let tail = v@.skip(j as int);
                if j < v.len() {
                    assert(tail[0] == v@[j as int]);
                }
                assert(word_len(tail) == 0);
                assert(rest.take(j - i) =~= v@.subrange(i as int, j as int));
                assert(rest.skip(j - i) =~= tail);
                lemma_word_len(rest);
            }
            let word = sub_chars(v, i, j);
            let ghost before = texts(r@);
            r.push(word);
            proof {
                assert(texts(r@) =~= before.push(word@));
                assert(before.push(word@) + words(v@.skip(j as int)) =~= before + (seq![word@]
                    + words(v@.skip(j as int))));
            }
            i = j;
        }
    }
    proof {
        assert(v@.skip(i as int) =~= Seq::<char>::empty());
        assert(texts(r@) + Seq::<Seq<char>>::empty() =~= texts(r@));
    }
    r
}

/// ASCII letters in lower case, all else unchanged.
pub open spec fn ascii_lower_char(c: char) -> char {
    if 'A' <= c <= 'Z' {
        (c as u32 + 32) as char
    } else {
        c
    }
}

pub open spec fn ascii_lower(s: Seq<char>) -> Seq<char> {
    s.map_values(|c: char| ascii_lower_char(c))
}

pub fn to_ascii_lower(v: &Vec<char>) -> (r: Vec<char>)
    ensures
        r@ == ascii_lower(v@),
{
    let mut r: Vec<char> = Vec::new();
    let mut i: usize = 0;
    while i < v.len()
        invariant
            i <= v.len(),
            r@ == ascii_lower(v@.take(i as int)),
        decreases v.len() - i,
    {
        r.push(lower_ascii_char(v[i]));
        i = i + 1;
        proof {
            assert(r@ =~= ascii_lower(v@.take(i as int)));
        }
    }
    proof {
        assert(v@.take(i as int) =~= v@);
    }
    r
}

/// The letters `A` to `Z`, and their lower case.
pub(crate) fn lower_ascii_char(c: char) -> (r: char)
    ensures
        r == ascii_lower_char(c),
{
    if 'A' <= c && c <= 'Z' {
        ((c as u8) + 32) as char
    } else {
        c
    }
}

/// `s` begins with `p`.
pub open spec fn has_prefix(s: Seq<char>, p: Seq<char>) -> bool {
    p.len() <= s.len() && s.take(p.len() as int) == p
}

pub fn starts_with(v: &Vec<char>, p: &str) -> (b: bool)
    ensures
        b == has_prefix(v@, p@),
{
    let p = chars_of(p);
    if p.len() > v.len() {
        return false;
    }
    proof {
        assert(v@.take(p.len() as int) =~= v@.subrange(0, p.len() as int));
    }
    same_chars(&sub_chars(v, 0, p.len()), &p)
}

// ---- numbers --------------------------------------------------------------------

pub open spec fn is_digit(c: char) -> bool {
    '0' <= c <= '9'
}

pub open spec fn all_digits(s: Seq<char>) -> bool {
    forall|i: int| 0 <= i < s.len() ==> is_digit(#[trigger] s[i])
}

/// The number that a row of decimal digits stands for.
pub open spec fn digits_value(s: Seq<char>) -> int
    decreases s.len(),
{
    if s.len() == 0 {
        0
    } else {
        digits_value(s.drop_last()) * 10 + (s.last() as u32 - '0' as u32)
    }
}

pub proof fn lemma_digits_value(s: Seq<char>)
    requires
        all_digits(s),
    ensures
        0 <= digits_value(s),
    decreases s.len(),
{
    if s.len() > 0 {
        assert forall|i: int| 0 <= i < s.drop_last().len() implies is_digit(
            #[trigger] s.drop_last()[i],
        ) by {
            assert(s.drop_last()[i] == s[i]);
        }
        lemma_digits_value(s.drop_last());
        assert(is_digit(s[s.len() - 1]));
    }
}

/// More digits make a number no smaller.
pub proof fn lemma_digits_prefix(s: Seq<char>, i: int)
    requires
        all_digits(s),
        0 <= i <= s.len(),
    ensures
        digits_value(s.take(i)) <= digits_value(s),
        all_digits(s.take(i)),
    decreases s.len(),
{
    assert forall|k: int| 0 <= k < s.take(i).len() implies is_digit(#[trigger] s.take(i)[k]) by {
        assert(s.take(i)[k] == s[k]);
    }
    if i < s.len() {
        assert forall|k: int| 0 <= k < s.drop_last().len() implies is_digit(
            #[trigger] s.drop_last()[k],
        ) by {
            assert(s.drop_last()[k] == s[k]);
        }
        lemma_digits_prefix(s.drop_last(), i);
        assert(s.drop_last().take(i) =~= s.take(i));
        assert(is_digit(s[s.len() - 1]));
        lemma_digits_value(s.drop_last());
    } else {
        assert(s.take(i) =~= s);
    }
}

/// The digits of a number, without its sign.
pub open spec fn unsigned(s: Seq<char>) -> Seq<char> {
    if s.len() > 0 && s[0] == '+' {
        s.skip(1)
    } else {
        s
    }
}

/// `s` is a number of `usize`: digits, an optional plus before them.
pub open spec fn is_number(s: Seq<char>) -> bool {
    &&& unsigned(s).len() > 0
    &&& all_digits(unsigned(s))
    &&& digits_value(unsigned(s)) <= usize::MAX
}

pub fn char_is_digit(c: char) -> (b: bool)
    ensures
        b == is_digit(c),
{
    '0' <= c && c <= '9'
}

/// The value of a digit.
pub fn digit_value(c: char) -> (d: usize)
    requires
        is_digit(c),
    ensures
        d == c as u32 - '0' as u32,
        d <= 9,
{
    (c as u32 - '0' as u32) as usize
}

/// The number that a text spells, if it spells one.
pub fn parse_number(v: &Vec<char>) -> (r: Option<usize>)
    ensures
        r is Some == is_number(v@),
        r matches Some(n) ==> n == digits_value(unsigned(v@)),
{
    let from: usize = if v.len() > 0 && v[0] == '+' {
        1
    } else {
        0
    };
    let ghost s = unsigned(v@);
    proof {
        assert(s =~= v@.skip(from as int));
    }
    if from == v.len() {
        return None;
    }
    let mut n: usize = 0;
    let mut i: usize = from;
    while i < v.len()
        invariant
            from <= i <= v.len(),
            s == v@.skip(from as int),
            s == unsigned(v@),
            all_digits(s.take(i - from)),
            n == digits_value(s.take(i - from)),
        decreases v.len() - i,
    {
        proof {
            assert(s[i - from] == v@[i as int]);
            assert(s.take(i - from + 1).drop_last() =~= s.take(i - from));
            assert(s.take(i - from + 1).last() == v@[i as int]);
        }
        if !char_is_digit(v[i]) {
            return None;
        }
        proof {
            assert forall|k: int| 0 <= k < s.take(i - from + 1).len() implies is_digit(
                #[trigger] s.take(i - from + 1)[k],
            ) by {
                if k < i - from {
                    assert(s.take(i - from + 1)[k] == s.take(i - from)[k]);
                }
            }
        }
        let d = digit_value(v[i]);
        if n > (usize::MAX - d) / 10 {
            proof {
                if is_number(v@) {
                    lemma_digits_prefix(s, i - from + 1);
                    assert(n * 10 + d > usize::MAX) by (nonlinear_arith)
                        requires
                            n > (usize::MAX - d) / 10,
                            0 <= d <= 9,
                    ;
                }
            }
            return None;
        }
        n = n * 10 + d;
        i = i + 1;
    }
    proof {
        assert(s.take(i - from) =~= s);
    }
    Some(n)
}

/// The digit for a number below ten.
pub open spec fn digit_char(d: int) -> char {
    ('0' as u32 + d) as char
}

/// A number in decimal.
pub open spec fn decimal(n: int) -> Seq<char>
    decreases n,
{
    if n < 10 {
        seq![digit_char(n)]
    } else {
        decimal(n / 10).push(digit_char(n % 10))
    }
}

/// A number in decimal, with a minus before it where it is negative.
pub open spec fn signed_decimal(n: int) -> Seq<char> {
    if n < 0 {
        seq!['-'] + decimal(-n)
    } else {
        decimal(n)
    }
}

fn char_of_digit(d: u64) -> (c: char)
    requires
        d < 10,
    ensures
        c == digit_char(d as int),
{
    if d == 0 {
        '0'
    } else if d == 1 {
        '1'
    } else if d == 2 {
        '2'
    } else if d == 3 {
        '3'
    } else if d == 4 {
        '4'
    } else if d == 5 {
        '5'
    } else if d == 6 {
        '6'
    } else if d == 7 {
        '7'
    } else if d == 8 {
        '8'
    } else {
        '9'
    }
}

/// Appends a number in decimal.
pub fn push_decimal(s: &mut String, n: u64)
    ensures
        final(s)@ == old(s)@ + decimal(n as int),
    decreases n,
{
    let ghost before = s@;
    if n < 10 {
        s.push(char_of_digit(n));
        proof {
            assert(s@ =~= before + decimal(n as int));
        }
    } else {
        push_decimal(s, n / 10);
        s.push(char_of_digit(n % 10));
        proof {
            assert(s@ =~= before + decimal(n as int));
        }
    }
}

/// A number in decimal spells that number.
pub proof fn decimal_spells_the_number(n: int)
    requires
        n >= 0,
    ensures
        all_digits(decimal(n)),
        decimal(n).len() > 0,
        digits_value(decimal(n)) == n,
    decreases n,
{
    let s = decimal(n);
    if n < 10 {
        assert(s.drop_last() =~= Seq::empty());
        assert(digits_value(s.drop_last()) == 0);
    } else {
        decimal_spells_the_number(n / 10);
        assert(s.drop_last() =~= decimal(n / 10));
        assert forall|i: int| 0 <= i < s.len() implies is_digit(#[trigger] s[i]) by {
            if i < s.len() - 1 {
                assert(s[i] == decimal(n / 10)[i]);
            }
        }
    }
}

// ---- splitting ------------------------------------------------------------------------

/// The parts of a text between the characters `c`.
pub open spec fn split_at(s: Seq<char>, c: char) -> Seq<Seq<char>>
    decreases s.len(),
{
    if s.len() == 0 {
        seq![Seq::empty()]
    } else {
        let parts = split_at(s.drop_last(), c);
        if s.last() == c {
            parts.push(Seq::empty())
        } else {
            parts.drop_last().push(parts.last().push(s.last()))
        }
    }
}

pub proof fn lemma_split_at(s: Seq<char>, c: char)
    ensures
        split_at(s, c).len() > 0,
    decreases s.len(),
{
    if s.len() > 0 {
        lemma_split_at(s.drop_last(), c);
    }
}

/// The parts of a text between the characters `c`.
pub fn split_chars(v: &Vec<char>, c: char) -> (r: Vec<Vec<char>>)
    ensures
        texts(r@) == split_at(v@, c),
        r.len() > 0,
{
    let mut parts: Vec<Vec<char>> = Vec::new();
    let mut part: Vec<char> = Vec::new();
    let mut i: usize = 0;
    proof {
        assert(v@.take(0) =~= Seq::empty());
        assert(texts(parts@).push(part@) =~= split_at(v@.take(0), c));
    }
    while i < v.len()
        invariant
            i <= v.len(),
            texts(parts@).push(part@) == split_at(v@.take(i as int), c),
        decreases v.len() - i,
    {
        let ghost before = split_at(v@.take(i as int), c);
        proof {
            assert(v@.take(i + 1).drop_last() =~= v@.take(i as int));
            assert(v@.take(i + 1).last() == v@[i as int]);
            assert(before.drop_last() =~= texts(parts@));
            assert(before.last() == part@);
        }
        if v[i] == c {
            let ghost done = part@;
            let ghost old_parts = texts(parts@);
            parts.push(part);
            part = Vec::new();
            proof {
                assert(texts(parts@) =~= old_parts.push(done));
                assert(part@ =~= Seq::empty());
            }
        } else {
            part.push(v[i]);
        }
        i = i + 1;
    }
    let ghost last = part@;
    let ghost old_parts = texts(parts@);
    parts.push(part);
    proof {
        assert(v@.take(i as int) =~= v@);
        assert(texts(parts@) =~= old_parts.push(last));
    }
    parts
}

/// The lines of a text: a line ends at a newline, a carriage return right
/// before it belongs to the line ending, and the last line needs none.
pub open spec fn text_lines(s: Seq<char>) -> Seq<Seq<char>> {
    let parts = split_at(s, '\n');
    let ended = parts.drop_last().map_values(|p: Seq<char>| without_return(p));
    if parts.last().len() == 0 {
        ended
    } else {
        ended.push(parts.last())
    }
}

/// A line without a carriage return at its end.
pub open spec fn without_return(p: Seq<char>) -> Seq<char> {
    if p.len() > 0 && p.last() == '\r' {
        p.drop_last()
    } else {
        p
    }
}

fn cut_return(p: &Vec<char>) -> (r: Vec<char>)
    ensures
        r@ == without_return(p@),
{
    if p.len() > 0 && p[p.len() - 1] == '\r' {
        let r = sub_chars(p, 0, p.len() - 1);
        proof {
            assert(r@ =~= p@.drop_last());
        }
        r
    } else {
        let r = sub_chars(p, 0, p.len());
        proof {
            assert(r@ =~= p@);
        }
        r
    }
}

/// The lines of a text.
pub fn split_lines(v: &Vec<char>) -> (r: Vec<Vec<char>>)
    ensures
        texts(r@) == text_lines(v@),
{
    let parts = split_chars(v, '\n');
    let ghost all = split_at(v@, '\n');
    let ghost ended = all.drop_last().map_values(|p: Seq<char>| without_return(p));
    let mut r: Vec<Vec<char>> = Vec::new();
    let mut i: usize = 0;
    let last = parts.len() - 1;
    proof {
        assert(all.len() == parts.len());
        assert(texts(r@) =~= ended.take(0));
    }
    while i < last
        invariant
            i <= last,
            last == parts.len() - 1,
            texts(parts@) == all,
            all.len() == parts.len(),
            ended == all.drop_last().map_values(|p: Seq<char>| without_return(p)),
            texts(r@) == ended.take(i as int),
        decreases last - i,
    {
        let ghost before = texts(r@);
        let line = cut_return(&parts[i]);
        let ghost seen = line@;
        r.push(line);
        proof {
            assert(all[i as int] == parts@[i as int]@);
            assert(texts(r@) =~= before.push(seen));
            assert(ended.take(i + 1) =~= ended.take(i as int).push(seen));
        }
        i = i + 1;
    }
    proof {
        assert(ended.take(i as int) =~= ended);
        assert(all.last() == parts@[last as int]@);
    }
    if parts[last].len() > 0 {
        let ghost before = texts(r@);
        let line = sub_chars(&parts[last], 0, parts[last].len());
        let ghost seen = line@;
        r.push(line);
        proof {
            assert(seen =~= all.last());
            assert(texts(r@) =~= before.push(seen));
        }
    }
    r
}

/// A text without the white space before it.
pub open spec fn trim_front(s: Seq<char>) -> Seq<char>
    decreases s.len(),
{
    if s.len() > 0 && white(s[0]) {
        trim_front(s.drop_first())
    } else {
        s
    }
}

/// A text without the white space behind it.
pub open spec fn trim_back(s: Seq<char>) -> Seq<char>
    decreases s.len(),
{
    if s.len() > 0 && white(s.last()) {
        trim_back(s.drop_last())
    } else {
        s
    }
}

/// A text without the white space around it.
pub open spec fn trimmed(s: Seq<char>) -> Seq<char> {
    trim_back(trim_front(s))
}

pub fn trim_start_chars(v: &Vec<char>) -> (r: Vec<char>)
    ensures
        r@ == trim_front(v@),
{
    let mut i: usize = 0;
    proof {
        assert(v@.skip(0) =~= v@);
    }
    while i < v.len() && is_white(v[i])
        invariant
            i <= v.len(),
            trim_front(v@.skip(i as int)) == trim_front(v@),
        decreases v.len() - i,
    {
        proof {
            assert(v@.skip(i as int).drop_first() =~= v@.skip(i + 1));
            assert(v@.skip(i as int)[0] == v@[i as int]);
        }
        i = i + 1;
    }
    proof {
        if i < v.len() {
            assert(v@.skip(i as int)[0] == v@[i as int]);
        }
        assert(v@.skip(i as int) =~= v@.subrange(i as int, v@.len() as int));
    }
    sub_chars(v, i, v.len())
}

pub fn trim_end_chars(v: &Vec<char>) -> (r: Vec<char>)
    ensures
        r@ == trim_back(v@),
{
    let mut n: usize = v.len();
    proof {
        assert(v@.take(n as int) =~= v@);
    }
    while n > 0 && is_white(v[n - 1])
        invariant
            n <= v.len(),
            trim_back(v@.take(n as int)) == trim_back(v@),
        decreases n,
    {
        proof {
            assert(v@.take(n as int).drop_last() =~= v@.take(n - 1));
        }
        n = n - 1;
    }
    proof {
        assert(v@.subrange(0, n as int) =~= v@.take(n as int));
    }
    sub_chars(v, 0, n)
}

pub fn trim_chars(v: &Vec<char>) -> (r: Vec<char>)
    ensures
        r@ == trimmed(v@),
{
    trim_end_chars(&trim_start_chars(v))
}

/// A text without the characters `c` before and behind it.
pub open spec fn stripped(s: Seq<char>, c: char) -> Seq<char>
    decreases s.len(),
{
    if s.len() > 0 && s[0] == c {
        stripped(s.drop_first(), c)
    } else if s.len() > 0 && s.last() == c {
        stripped(s.drop_last(), c)
    } else {
        s
    }
}

pub fn strip_chars(v: &Vec<char>, c: char) -> (r: Vec<char>)
    ensures
        r@ == stripped(v@, c),
{
    let mut a: usize = 0;
    let mut b: usize = v.len();
    proof {
        assert(v@.subrange(0, b as int) =~= v@);
    }
    while a < b && (v[a] == c || v[b - 1] == c)
        invariant
            a <= b <= v.len(),
            stripped(v@.subrange(a as int, b as int), c) == stripped(v@, c),
        decreases b - a,
    {
        let ghost part = v@.subrange(a as int, b as int);
        if v[a] == c {
            proof {
                assert(part.drop_first() =~= v@.subrange(a + 1, b as int));
            }
            a = a + 1;
        } else {
            proof {
                assert(part.drop_last() =~= v@.subrange(a as int, b - 1));
            }
            b = b - 1;
        }
    }
    sub_chars(v, a, b)
}

/// Where `c` first stands in a text; its length when it is not there.
pub open spec fn first_index(s: Seq<char>, c: char) -> int
    decreases s.len(),
{
    if s.len() == 0 || s[0] == c {
        0
    } else {
        1 + first_index(s.drop_first(), c)
    }
}

pub proof fn lemma_first_index(s: Seq<char>, c: char)
    ensures
        0 <= first_index(s, c) <= s.len(),
        first_index(s, c) < s.len() ==> s[first_index(s, c)] == c,
        forall|i: int| 0 <= i < first_index(s, c) ==> s[i] != c,
    decreases s.len(),
{
    if s.len() > 0 && s[0] != c {
        lemma_first_index(s.drop_first(), c);
        assert forall|i: int| 0 <= i < first_index(s, c) implies s[i] != c by {
            if i > 0 {
                assert(s[i] == s.drop_first()[i - 1]);
            }
        }
    }
}

pub fn find_char(v: &Vec<char>, c: char) -> (n: usize)
    ensures
        n == first_index(v@, c),
        n <= v.len(),
{
    let mut i: usize = 0;
    proof {
        assert(v@.skip(0) =~= v@);
    }
    while i < v.len() && v[i] != c
        invariant
            i <= v.len(),
            first_index(v@, c) == i + first_index(v@.skip(i as int), c),
        decreases v.len() - i,
    {
        proof {
            assert(v@.skip(i as int).drop_first() =~= v@.skip(i + 1));
            assert(v@.skip(i as int)[0] == v@[i as int]);
        }
        i = i + 1;
    }
    proof {
        if i < v.len() {
            assert(v@.skip(i as int)[0] == v@[i as int]);
        }
    }
    i
}

} // verus!
