//! Where the motions land, in terms of the text alone.
use crate::doc::Doc;
use crate::word::{blank_line_from, blank_line_to, paragraph_after, paragraph_before};
use vstd::prelude::*;

verus! {

// ---- paragraphs --------------------------------------------------------------------

proof fn lemma_blank_line_to(d: Doc, i: int)
    requires
        0 <= i,
    ensures
        0 <= blank_line_to(d, i) <= i,
        blank_line_to(d, i) == 0 || d.is_blank(blank_line_to(d, i)),
        forall|k: int| blank_line_to(d, i) < k <= i ==> !#[trigger] d.is_blank(k),
    decreases i,
{
    if i > 0 && !d.is_blank(i) {
        lemma_blank_line_to(d, i - 1);
    }
}

proof fn lemma_blank_line_from(d: Doc, i: int)
    requires
        i <= d.line_count(),
    ensures
        i <= blank_line_from(d, i) <= d.line_count(),
        blank_line_from(d, i) == d.line_count() || d.is_blank(blank_line_from(d, i)),
        forall|k: int| i <= k < blank_line_from(d, i) ==> !#[trigger] d.is_blank(k),
    decreases d.line_count() - i,
{
    if i < d.line_count() && !d.is_blank(i) {
        lemma_blank_line_from(d, i + 1);
    }
}

/// `{` lands on the start of a line before the cursor's that is blank, or of
/// the first line, and no line in between is blank. From the first line it goes
/// to the beginning of the text.
pub proof fn paragraph_back_is_the_blank_line_above(d: Doc, o: int) -> (p: int)
    requires
        d.wf(),
        0 <= o,
    ensures
        paragraph_before(d, o) == d.line_start(p),
        d.line_of(o) > 0 ==> 0 <= p < d.line_of(o),
        d.line_of(o) == 0 ==> p == 0,
        p == 0 || d.is_blank(p),
        forall|i: int| p < i < d.line_of(o) ==> !#[trigger] d.is_blank(i),
{
    d.lemma_line_of(o);
    let line = d.line_of(o);
    if line <= 0 {
        0
    } else {
        lemma_blank_line_to(d, line - 1);
        blank_line_to(d, line - 1)
    }
}

/// `}` lands on the start of a line behind the cursor's that is blank, and no
/// line in between is; without such a line, at the end of the text.
pub proof fn paragraph_on_is_the_blank_line_below(d: Doc, o: int) -> (p: int)
    requires
        d.wf(),
        0 <= o,
    ensures
        d.line_of(o) < p <= d.line_count(),
        p < d.line_count() ==> d.is_blank(p) && paragraph_after(d, o) == d.line_start(p),
        p == d.line_count() ==> paragraph_after(d, o) == d.len(),
        forall|i: int| d.line_of(o) < i < p ==> !#[trigger] d.is_blank(i),
{
    d.lemma_line_of(o);
    lemma_blank_line_from(d, d.line_of(o) + 1);
    blank_line_from(d, d.line_of(o) + 1)
}

} // verus!
