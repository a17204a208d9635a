//! Paragraph formatting for `gq` / `gw`.
//!
//! Words are filled into lines of at most `textwidth` display columns. Blank
//! lines separate paragraphs and stay. A paragraph keeps the indent of its
//! first line on every line.
use crate::buffer::{char_display_width, display_width};
use crate::shift::plus;
use crate::chars::white;
use crate::strs::{lemma_word_len, split_words, sub_chars, texts, word_len, words};
use crate::doc::min;
use vstd::prelude::*;

verus! {

/// The columns that a text takes up.
pub open spec fn text_width(s: Seq<char>) -> int
    decreases s.len(),
{
    if s.len() == 0 {
        0
    } else {
        text_width(s.drop_last()) + display_width(s.last())
    }
}

proof fn lemma_text_width(s: Seq<char>)
    ensures
        0 <= text_width(s),
    decreases s.len(),
{
    if s.len() > 0 {
        lemma_text_width(s.drop_last());
    }
}

/// The columns of a text, capped to what a number can hold.
fn width_of(v: &Vec<char>) -> (w: usize)
    ensures
        w == min(text_width(v@), usize::MAX as int),
{
    let mut w: usize = 0;
    let mut i: usize = 0;
    while i < v.len()
        invariant
            i <= v.len(),
            w == min(text_width(v@.take(i as int)), usize::MAX as int),
        decreases v.len() - i,
    {
        proof {
            assert(v@.take(i + 1).drop_last() =~= v@.take(i as int));
            lemma_text_width(v@.take(i as int));
        }
        w = plus(w, char_display_width(v[i]));
        i = i + 1;
    }
    proof {
        assert(v@.take(i as int) =~= v@);
    }
    w
}

/// The blanks and tabs at the front of a line.
pub open spec fn indent_of(s: Seq<char>) -> Seq<char>
    decreases s.len(),
{
    if s.len() > 0 && (s[0] == ' ' || s[0] == '\t') {
        seq![s[0]] + indent_of(s.drop_first())
    } else {
        Seq::empty()
    }
}

/// A word set behind what is in a line already.
pub open spec fn with_word(line: Seq<char>, word: Seq<char>) -> Seq<char> {
    line.push(' ') + word
}

/// The words from the `i`-th on filled into lines, `line` begun already.
pub open spec fn filled_on(
    ws: Seq<Seq<char>>,
    i: int,
    line: Seq<char>,
    indent: Seq<char>,
    width: int,
) -> Seq<Seq<char>>
    decreases ws.len() - i,
{
    if i < 0 || i >= ws.len() {
        seq![line]
    } else if text_width(line) + 1 + text_width(ws[i]) > width {
        seq![line] + filled_on(ws, i + 1, indent + ws[i], indent, width)
    } else {
        filled_on(ws, i + 1, with_word(line, ws[i]), indent, width)
    }
}

/// Words filled into lines; no lines without words.
pub open spec fn filled(ws: Seq<Seq<char>>, indent: Seq<char>, width: int) -> Seq<Seq<char>> {
    if ws.len() == 0 {
        Seq::empty()
    } else {
        filled_on(ws, 1, indent + ws[0], indent, width)
    }
}

/// The lines from the `i`-th on formatted; the words of the paragraph so far
/// are `ws`.
pub open spec fn formatted_on(
    lines: Seq<Seq<char>>,
    i: int,
    ws: Seq<Seq<char>>,
    indent: Seq<char>,
    width: int,
) -> Seq<Seq<char>>
    decreases lines.len() - i,
{
    if i < 0 || i >= lines.len() {
        filled(ws, indent, width)
    } else if words(lines[i]).len() == 0 {
        filled(ws, indent, width) + (seq![Seq::<char>::empty()] + formatted_on(
            lines,
            i + 1,
            Seq::empty(),
            Seq::empty(),
            width,
        ))
    } else {
        formatted_on(
            lines,
            i + 1,
            ws + words(lines[i]),
            if ws.len() == 0 {
                indent_of(lines[i])
            } else {
                indent
            },
            width,
        )
    }
}

/// Lines formatted to `width` columns.
pub open spec fn formatted(lines: Seq<Seq<char>>, width: int) -> Seq<Seq<char>> {
    formatted_on(lines, 0, Seq::empty(), Seq::empty(), width)
}

/// Lines with newlines between them.
pub open spec fn joined(lines: Seq<Seq<char>>) -> Seq<char>
    decreases lines.len(),
{
    if lines.len() == 0 {
        Seq::empty()
    } else if lines.len() == 1 {
        lines[0]
    } else {
        joined(lines.drop_last()).push('\n') + lines.last()
    }
}

fn copy_chars(v: &Vec<char>) -> (r: Vec<char>)
    ensures
        r@ == v@,
{
    let r = sub_chars(v, 0, v.len());
    proof {
        assert(r@ =~= v@);
    }
    r
}

fn concat(a: &Vec<char>, b: &Vec<char>) -> (r: Vec<char>)
    ensures
        r@ == a@ + b@,
{
    let mut r = copy_chars(a);
    append(&mut r, b);
    r
}

fn append(a: &mut Vec<char>, b: &Vec<char>)
    ensures
        final(a)@ == old(a)@ + b@,
{
    let mut i: usize = 0;
    proof {
        assert(a@ + b@.take(0) =~= a@);
    }
    while i < b.len()
        invariant
            i <= b.len(),
            a@ == old(a)@ + b@.take(i as int),
        decreases b.len() - i,
    {
        let c = b[i];
        a.push(c);
        proof {
            assert(a@ =~= old(a)@ + b@.take(i + 1));
        }
        i = i + 1;
    }
    proof {
        assert(b@.take(i as int) =~= b@);
    }
}

fn read_indent(v: &Vec<char>) -> (r: Vec<char>)
    ensures
        r@ == indent_of(v@),
{
    let mut n: usize = 0;
    proof {
        assert(v@.skip(0) =~= v@);
        assert(v@.take(0) + indent_of(v@) =~= indent_of(v@));
    }
    while n < v.len() && (v[n] == ' ' || v[n] == '\t')
        invariant
            n <= v.len(),
            v@.take(n as int) + indent_of(v@.skip(n as int)) == indent_of(v@),
        decreases v.len() - n,
    {
        proof {
            let s = v@.skip(n as int);
            assert(s.drop_first() =~= v@.skip(n + 1));
            assert(v@.take(n + 1) =~= v@.take(n as int).push(s[0]));
            assert(v@.take(n as int) + (seq![s[0]] + indent_of(v@.skip(n + 1))) =~= v@.take(n + 1)
                + indent_of(v@.skip(n + 1)));
        }
        n = n + 1;
    }
    let r = sub_chars(v, 0, n);
    proof {
        assert(indent_of(v@.skip(n as int)) =~= Seq::<char>::empty());
        assert(r@ =~= v@.take(n as int) + Seq::<char>::empty());
    }
    r
}

proof fn lemma_push_text(v: Seq<Vec<char>>, t: Vec<char>)
    ensures
        texts(v.push(t)) == texts(v).push(t@),
{
    assert(texts(v.push(t)) =~= texts(v).push(t@));
}

/// Sets the words into lines behind those of `out`.
fn fill_into(out: &mut Vec<Vec<char>>, ws: &Vec<Vec<char>>, indent: &Vec<char>, width: usize)
    requires
        width < usize::MAX,
    ensures
        texts(final(out)@) == texts(old(out)@) + filled(texts(ws@), indent@, width as int),
{
    let ghost before = texts(out@);
    let ghost all = texts(ws@);
    if ws.len() == 0 {
        proof {
            assert(before + Seq::<Seq<char>>::empty() =~= before);
        }
        return;
    }
    proof {
        assert(all[0] == ws@[0]@);
    }
    let mut line = concat(indent, &ws[0]);
    let mut i: usize = 1;
    while i < ws.len()
        invariant
            width < usize::MAX,
            1 <= i <= ws.len(),
            all == texts(ws@),
            all.len() == ws.len(),
            before + filled(all, indent@, width as int) == texts(out@) + filled_on(
                all,
                i as int,
                line@,
                indent@,
                width as int,
            ),
        decreases ws.len() - i,
    {
        proof {
            assert(all[i as int] == ws@[i as int]@);
            lemma_text_width(line@);
            lemma_text_width(ws@[i as int]@);
        }
        let wide = plus(plus(width_of(&line), 1), width_of(&ws[i]));
        if wide > width {
            let ghost shown = line@;
            let ghost so_far = texts(out@);
            let ghost done = line;
            let next = concat(indent, &ws[i]);
            out.push(line);
            proof {
                assert(texts(out@) =~= so_far.push(shown));
                let rest = filled_on(all, i + 1, indent@ + all[i as int], indent@, width as int);
                assert(so_far + (seq![shown] + rest) =~= so_far.push(shown) + rest);
            }
            line = next;
        } else {
            line.push(' ');
            append(&mut line, &ws[i]);
        }
        i = i + 1;
    }
    let ghost so_far = texts(out@);
    let ghost shown = line@;
    out.push(line);
    proof {
        assert(texts(out@) =~= so_far.push(shown));
        assert(so_far + seq![shown] =~= so_far.push(shown));
    }
}

fn append_all(a: &mut Vec<Vec<char>>, b: Vec<Vec<char>>)
    ensures
        texts(final(a)@) == texts(old(a)@) + texts(b@),
{
    let ghost before = texts(a@);
    let mut i: usize = 0;
    proof {
        assert(before + texts(b@).take(0) =~= before);
    }
    while i < b.len()
        invariant
            i <= b.len(),
            texts(a@) == before + texts(b@).take(i as int),
        decreases b.len() - i,
    {
        let ghost so_far = texts(a@);
        let t = copy_chars(&b[i]);
        let ghost seen = t@;
        a.push(t);
        proof {
            assert(texts(a@) =~= so_far.push(seen));
            assert(texts(a@) =~= before + texts(b@).take(i + 1));
        }
        i = i + 1;
    }
    proof {
        assert(texts(b@).take(i as int) =~= texts(b@));
    }
}

/// Formats lines to `width` display columns.
pub fn format_lines(lines: &Vec<Vec<char>>, width: usize) -> (r: Vec<Vec<char>>)
    requires
        width < usize::MAX,
    ensures
        texts(r@) == formatted(texts(lines@), width as int),
{
    let ghost all = texts(lines@);
    let mut out: Vec<Vec<char>> = Vec::new();
    let mut ws: Vec<Vec<char>> = Vec::new();
    let mut indent: Vec<char> = Vec::new();
    let mut i: usize = 0;
    proof {
        assert(texts(out@) =~= Seq::<Seq<char>>::empty());
        assert(texts(ws@) =~= Seq::<Seq<char>>::empty());
        assert(indent@ =~= Seq::<char>::empty());
        assert(Seq::<Seq<char>>::empty() + formatted(all, width as int) =~= formatted(
            all,
            width as int,
        ));
    }
    while i < lines.len()
        invariant
            width < usize::MAX,
            i <= lines.len(),
            all == texts(lines@),
            all.len() == lines.len(),
            texts(out@) + formatted_on(all, i as int, texts(ws@), indent@, width as int)
                == formatted(all, width as int),
        decreases lines.len() - i,
    {
        proof {
            assert(all[i as int] == lines@[i as int]@);
        }
        let here = split_words(&lines[i]);
        if here.len() == 0 {
            let ghost so_far = texts(out@);
            let ghost part = filled(texts(ws@), indent@, width as int);
            proof {
                assert(texts(here@).len() == 0);
            }
            fill_into(&mut out, &ws, &indent, width);
            let blank: Vec<char> = Vec::new();
            proof {
                lemma_push_text(out@, blank);
            }
            out.push(blank);
            ws = Vec::new();
            indent = Vec::new();
            proof {
                assert(texts(ws@) =~= Seq::<Seq<char>>::empty());
                assert(indent@ =~= Seq::<char>::empty());
                assert(blank@ =~= Seq::<char>::empty());
                let rest = formatted_on(all, i + 1, Seq::empty(), Seq::empty(), width as int);
                assert(so_far + (part + (seq![Seq::<char>::empty()] + rest)) =~= (so_far
                    + part).push(Seq::<char>::empty()) + rest);
            }
        } else {
            proof {
                assert(texts(here@).len() == here@.len());
                assert(texts(ws@).len() == ws@.len());
            }
            if ws.len() == 0 {
                indent = read_indent(&lines[i]);
            }
            append_all(&mut ws, here);
        }
        i = i + 1;
    }
    fill_into(&mut out, &ws, &indent, width);
    out
}

/// Every line of a text of short words is at most `width` columns wide.
pub proof fn lines_fit(ws: Seq<Seq<char>>, i: int, line: Seq<char>, indent: Seq<char>, width: int, k: int)
    requires
        0 <= i,
        text_width(line) <= width,
        forall|j: int|
            0 <= j < ws.len() ==> text_width(indent) + text_width(#[trigger] ws[j]) <= width,
        0 <= k < filled_on(ws, i, line, indent, width).len(),
    ensures
        text_width(filled_on(ws, i, line, indent, width)[k]) <= width,
    decreases ws.len() - i,
{
    if i < ws.len() {
        if text_width(line) + 1 + text_width(ws[i]) > width {
            lemma_width_concat(indent, ws[i]);
            if k > 0 {
                lines_fit(ws, i + 1, indent + ws[i], indent, width, k - 1);
            }
        } else {
            lemma_width_concat(line.push(' '), ws[i]);
            assert(line.push(' ').drop_last() =~= line);
            lines_fit(ws, i + 1, with_word(line, ws[i]), indent, width, k);
        }
    }
}

proof fn lemma_width_concat(a: Seq<char>, b: Seq<char>)
    ensures
        text_width(a + b) == text_width(a) + text_width(b),
    decreases b.len(),
{
    if b.len() == 0 {
        assert(a + b =~= a);
    } else {
        assert((a + b).drop_last() =~= a + b.drop_last());
        lemma_width_concat(a, b.drop_last());
    }
}

/// No paragraph is wider than the text width, unless a word with its indent
/// is.
pub proof fn formatting_fits(ws: Seq<Seq<char>>, indent: Seq<char>, width: int, k: int)
    requires
        forall|j: int|
            0 <= j < ws.len() ==> text_width(indent) + text_width(#[trigger] ws[j]) <= width,
        0 <= k < filled(ws, indent, width).len(),
    ensures
        text_width(filled(ws, indent, width)[k]) <= width,
{
    lemma_width_concat(indent, ws[0]);
    lines_fit(ws, 1, indent + ws[0], indent, width, k);
}

/// A word: not empty, and without white space.
pub open spec fn is_word(w: Seq<char>) -> bool {
    w.len() > 0 && forall|i: int| 0 <= i < w.len() ==> !white(#[trigger] w[i])
}

/// Nothing but white space.
pub open spec fn all_white(s: Seq<char>) -> bool {
    forall|i: int| 0 <= i < s.len() ==> white(#[trigger] s[i])
}

/// The words of all lines, in order.
pub open spec fn all_words(lines: Seq<Seq<char>>) -> Seq<Seq<char>>
    decreases lines.len(),
{
    if lines.len() == 0 {
        Seq::empty()
    } else {
        words(lines[0]) + all_words(lines.drop_first())
    }
}

proof fn lemma_word_len_is(s: Seq<char>, k: int)
    requires
        0 <= k <= s.len(),
        forall|i: int| 0 <= i < k ==> !white(#[trigger] s[i]),
        k < s.len() ==> white(s[k]),
    ensures
        word_len(s) == k,
{
    lemma_word_len(s);
    if word_len(s) > k {
        assert(!white(s[k]));
    }
}

proof fn lemma_words_are_words(s: Seq<char>)
    ensures
        forall|i: int| 0 <= i < words(s).len() ==> is_word(#[trigger] words(s)[i]),
    decreases s.len(),
{
    lemma_word_len(s);
    if s.len() > 0 {
        if white(s[0]) {
            lemma_words_are_words(s.drop_first());
            assert(words(s) == words(s.drop_first()));
        } else {
            let n = word_len(s);
            let rest = words(s.skip(n));
            lemma_words_are_words(s.skip(n));
            assert(is_word(s.take(n)));
            assert forall|i: int| 0 <= i < words(s).len() implies is_word(
                #[trigger] words(s)[i],
            ) by {
                if i > 0 {
                    assert(words(s)[i] == rest[i - 1]);
                } else {
                    assert(words(s)[0] == s.take(n));
                }
            }
        }
    } else {
        assert(words(s) =~= Seq::<Seq<char>>::empty());
    }
}

/// White space between two texts keeps their words apart.
proof fn lemma_words_apart(a: Seq<char>, b: Seq<char>)
    requires
        b.len() > 0,
        white(b[0]),
    ensures
        words(a + b) == words(a) + words(b),
    decreases a.len(),
{
    if a.len() == 0 {
        assert(a + b =~= b);
        assert(words(a) + words(b) =~= words(b));
    } else if white(a[0]) {
        assert((a + b).drop_first() =~= a.drop_first() + b);
        lemma_words_apart(a.drop_first(), b);
    } else {
        let n = word_len(a);
        lemma_word_len(a);
        assert forall|i: int| 0 <= i < n implies !white(#[trigger] (a + b)[i]) by {
            assert((a + b)[i] == a[i]);
        }
        lemma_word_len_is(a + b, n);
        assert((a + b).take(n) =~= a.take(n));
        assert((a + b).skip(n) =~= a.skip(n) + b);
        lemma_words_apart(a.skip(n), b);
        assert(seq![a.take(n)] + (words(a.skip(n)) + words(b)) =~= seq![a.take(n)] + words(
            a.skip(n),
        ) + words(b));
    }
}

/// A word behind white space is the only word there.
proof fn lemma_one_word(indent: Seq<char>, w: Seq<char>)
    requires
        all_white(indent),
        is_word(w),
    ensures
        words(indent + w) == seq![w],
    decreases indent.len(),
{
    if indent.len() == 0 {
        assert(indent + w =~= w);
        lemma_word_len_is(w, w.len() as int);
        assert(w.take(w.len() as int) =~= w);
        assert(words(w.skip(w.len() as int)) =~= Seq::<Seq<char>>::empty());
        assert(words(w) =~= seq![w]);
    } else {
        let s = indent + w;
        assert(white(s[0])) by {
            assert(s[0] == indent[0]);
        }
        assert(s.drop_first() =~= indent.drop_first() + w);
        assert forall|i: int| 0 <= i < indent.drop_first().len() implies white(
            #[trigger] indent.drop_first()[i],
        ) by {
            assert(indent.drop_first()[i] == indent[i + 1]);
        }
        lemma_one_word(indent.drop_first(), w);
    }
}

proof fn lemma_all_words_concat(a: Seq<Seq<char>>, b: Seq<Seq<char>>)
    ensures
        all_words(a + b) == all_words(a) + all_words(b),
    decreases a.len(),
{
    if a.len() == 0 {
        assert(a + b =~= b);
        assert(all_words(a) + all_words(b) =~= all_words(b));
    } else {
        assert((a + b).drop_first() =~= a.drop_first() + b);
        lemma_all_words_concat(a.drop_first(), b);
        assert(words(a[0]) + (all_words(a.drop_first()) + all_words(b)) =~= words(a[0])
            + all_words(a.drop_first()) + all_words(b));
    }
}

proof fn lemma_single_line(line: Seq<char>)
    ensures
        all_words(seq![line]) == words(line),
{
    assert(seq![line].drop_first() =~= Seq::<Seq<char>>::empty());
    assert(all_words(Seq::<Seq<char>>::empty()) =~= Seq::<Seq<char>>::empty());
    assert(words(line) + Seq::<Seq<char>>::empty() =~= words(line));
}

proof fn lemma_filled_on(
    ws: Seq<Seq<char>>,
    i: int,
    line: Seq<char>,
    indent: Seq<char>,
    width: int,
)
    requires
        0 <= i <= ws.len(),
        all_white(indent),
        forall|j: int| 0 <= j < ws.len() ==> is_word(#[trigger] ws[j]),
    ensures
        all_words(filled_on(ws, i, line, indent, width)) == words(line) + ws.skip(i),
    decreases ws.len() - i,
{
    lemma_single_line(line);
    if i == ws.len() {
        assert(words(line) + ws.skip(i) =~= words(line));
    } else if text_width(line) + 1 + text_width(ws[i]) > width {
        let rest = filled_on(ws, i + 1, indent + ws[i], indent, width);
        lemma_filled_on(ws, i + 1, indent + ws[i], indent, width);
        lemma_one_word(indent, ws[i]);
        lemma_all_words_concat(seq![line], rest);
        assert(words(line) + (seq![ws[i]] + ws.skip(i + 1)) =~= words(line) + ws.skip(i));
    } else {
        lemma_filled_on(ws, i + 1, with_word(line, ws[i]), indent, width);
        let gap = seq![' '];
        assert(with_word(line, ws[i]) =~= line + (gap + ws[i]));
        lemma_words_apart(line, gap + ws[i]);
        lemma_one_word(gap, ws[i]);
        assert(words(line) + seq![ws[i]] + ws.skip(i + 1) =~= words(line) + ws.skip(i));
    }
}

proof fn lemma_filled(ws: Seq<Seq<char>>, indent: Seq<char>, width: int)
    requires
        all_white(indent),
        forall|j: int| 0 <= j < ws.len() ==> is_word(#[trigger] ws[j]),
    ensures
        all_words(filled(ws, indent, width)) == ws,
{
    if ws.len() > 0 {
        lemma_filled_on(ws, 1, indent + ws[0], indent, width);
        lemma_one_word(indent, ws[0]);
        assert(seq![ws[0]] + ws.skip(1) =~= ws);
    } else {
        assert(all_words(filled(ws, indent, width)) =~= ws);
    }
}

proof fn lemma_indent_of(s: Seq<char>)
    ensures
        all_white(indent_of(s)),
    decreases s.len(),
{
    if s.len() > 0 && (s[0] == ' ' || s[0] == '\t') {
        lemma_indent_of(s.drop_first());
        let rest = indent_of(s.drop_first());
        assert forall|i: int| 0 <= i < indent_of(s).len() implies white(
            #[trigger] indent_of(s)[i],
        ) by {
            if i > 0 {
                assert(indent_of(s)[i] == rest[i - 1]);
            }
        }
    }
}

proof fn lemma_formatted_on(
    lines: Seq<Seq<char>>,
    i: int,
    ws: Seq<Seq<char>>,
    indent: Seq<char>,
    width: int,
)
    requires
        0 <= i <= lines.len(),
        all_white(indent),
        forall|j: int| 0 <= j < ws.len() ==> is_word(#[trigger] ws[j]),
    ensures
        all_words(formatted_on(lines, i, ws, indent, width)) == ws + all_words(lines.skip(i)),
    decreases lines.len() - i,
{
    lemma_filled(ws, indent, width);
    if i == lines.len() {
        assert(all_words(lines.skip(i)) =~= Seq::<Seq<char>>::empty());
        assert(ws + all_words(lines.skip(i)) =~= ws);
    } else {
        let here = words(lines[i]);
        lemma_words_are_words(lines[i]);
        assert(lines.skip(i).drop_first() =~= lines.skip(i + 1));
        assert(all_words(lines.skip(i)) == here + all_words(lines.skip(i + 1)));
        if here.len() == 0 {
            let none = Seq::<Seq<char>>::empty();
            let blank = seq![Seq::<char>::empty()];
            let rest = formatted_on(lines, i + 1, none, Seq::empty(), width);
            lemma_formatted_on(lines, i + 1, none, Seq::empty(), width);
            lemma_single_line(Seq::empty());
            assert(words(Seq::<char>::empty()) =~= none);
            lemma_all_words_concat(blank, rest);
            lemma_all_words_concat(filled(ws, indent, width), blank + rest);
            assert(ws + (none + (none + all_words(lines.skip(i + 1)))) =~= ws + (here + all_words(
                lines.skip(i + 1),
            )));
        } else {
            let next = if ws.len() == 0 {
                indent_of(lines[i])
            } else {
                indent
            };
            lemma_indent_of(lines[i]);
            assert forall|j: int| 0 <= j < (ws + here).len() implies is_word(
                #[trigger] (ws + here)[j],
            ) by {
                if j >= ws.len() {
                    assert((ws + here)[j] == here[j - ws.len()]);
                }
            }
            lemma_formatted_on(lines, i + 1, ws + here, next, width);
            assert(ws + here + all_words(lines.skip(i + 1)) =~= ws + (here + all_words(
                lines.skip(i + 1),
            )));
        }
    }
}

/// Formatting moves words from line to line, but neither loses nor changes
/// one, nor their order.
pub proof fn formatting_keeps_words(lines: Seq<Seq<char>>, width: int)
    ensures
        all_words(formatted(lines, width)) == all_words(lines),
{
    lemma_formatted_on(lines, 0, Seq::empty(), Seq::empty(), width);
    assert(lines.skip(0) =~= lines);
    assert(Seq::<Seq<char>>::empty() + all_words(lines) =~= all_words(lines));
}

} // verus!
