//! What the lines of a text are: their ends, their indent and when they are
//! blank.
use crate::doc::Doc;
use vstd::prelude::*;

verus! {

/// A space or a tab stands at `k`.
pub open spec fn spaced(d: Doc, k: int) -> bool {
    d.char_at(k) == Some(' ') || d.char_at(k) == Some('\t')
}

/// What `after_indent` skips is all spaces and tabs, and it stops before the
/// first other character.
proof fn lemma_indent_stop(d: Doc, o: int, end: int)
    requires
        0 <= o <= end <= d.len(),
    ensures
        o <= d.after_indent(o, end) <= end,
        forall|k: int| o <= k < d.after_indent(o, end) ==> #[trigger] spaced(d, k),
        d.after_indent(o, end) < end ==> !spaced(d, d.after_indent(o, end)),
    decreases end - o,
{
    if o < end && spaced(d, o) {
        lemma_indent_stop(d, o + 1, end);
    }
}

/// The indent of a line is made of spaces and tabs, and what stands behind it
/// is neither.
pub proof fn indent_is_the_blanks_in_front(d: Doc, i: int)
    requires
        d.wf(),
        0 <= i,
    ensures
        d.indent(i) >= 0,
        d.line_start(i) + d.indent(i) <= d.line_end(i),
        d.first_non_blank(i) == d.line_start(i) + d.indent(i),
        forall|k: int|
            d.line_start(i) <= k < d.line_start(i) + d.indent(i) ==> #[trigger] spaced(d, k),
        d.first_non_blank(i) < d.line_end(i) ==> !spaced(d, d.first_non_blank(i)),
{
    d.lemma_line_bounds(i);
    lemma_indent_stop(d, d.line_start(i), d.line_end(i));
}

/// A line is blank exactly when it holds nothing but spaces and tabs.
pub proof fn a_blank_line_holds_only_blanks(d: Doc, i: int)
    requires
        d.wf(),
        0 <= i,
    ensures
        d.is_blank(i) <==> forall|k: int|
            d.line_start(i) <= k < d.line_end(i) ==> #[trigger] spaced(d, k),
{
    d.lemma_line_bounds(i);
    indent_is_the_blanks_in_front(d, i);
    if !d.is_blank(i) {
        assert(!spaced(d, d.first_non_blank(i)));
    }
}

/// The lines lie one behind the other and cover the text: the first starts at
/// the beginning, each next one where the one before stops, and the last stops
/// at the end. A line's contents lack its newline and nothing else.
pub proof fn lines_cover_the_text(d: Doc, i: int)
    requires
        d.wf(),
        0 <= i < d.line_count(),
    ensures
        d.line_start(0) == 0,
        d.line_start(i) <= d.line_end(i) <= d.line_stop(i),
        i + 1 < d.line_count() ==> d.line_stop(i) == d.line_start(i + 1) && d.line_start(i)
            < d.line_stop(i),
        i + 1 == d.line_count() ==> d.line_stop(i) == d.len(),
        d.line_end(i) < d.line_stop(i) ==> d.line_end(i) + 1 == d.line_stop(i) && d.char_at(
            d.line_end(i),
        ) == Some('\n'),
        d.line_end(i) == d.line_stop(i) && d.line_start(i) < d.line_stop(i) ==> d.char_at(
            d.line_stop(i) - 1,
        ) != Some('\n'),
{
    d.lemma_line_bounds(i);
    if i + 1 < d.line_count() {
        assert(d.starts[i] < d.starts[i + 1]);
    }
}

/// An offset of the text lies in its line and in no other.
pub proof fn an_offset_lies_in_its_line(d: Doc, o: int, i: int)
    requires
        d.wf(),
        0 <= o <= d.len(),
        0 <= i < d.line_count(),
    ensures
        d.line_of(o) == i <==> d.line_start(i) <= o && (i + 1 < d.line_count() ==> o
            < d.line_stop(i)),
{
    d.lemma_line_of(o);
    if d.line_start(i) <= o && (i + 1 < d.line_count() ==> o < d.line_stop(i)) {
        d.lemma_line_of_unique(o, i);
    }
}

} // verus!
