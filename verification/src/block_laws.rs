//! What a block selection covers, and how its rows are edited.
use crate::block::{insert_spot, padded, removed_before, starts_after_delete, text_columns};
use crate::buffer::{display_width, lemma_width_between_nonneg};
use crate::cells::cells;
use crate::doc::{max, Doc};
use crate::edits::run_of;
use crate::insert_mode::{put_down, replica_rows, sorted_down};
use crate::landing_laws::{in_column, lemma_in_column};
use crate::mode::{Mode, VisualKind};
use crate::ops::block_row;
use crate::state::{BlockPlan, Vim};
use vstd::prelude::*;

verus! {

/// A block covers the lines from the one of its first end to the one of its
/// last, and the columns from the left edge of the one end to the right edge of
/// the other. A row begins at the character that covers the left edge, and takes
/// in every character that begins before the right one.
pub proof fn a_block_is_a_rectangle(v: Vim, d: Doc, anchor: usize, i: int)
    requires
        d.wf(),
        v.mode == (Mode::Visual { kind: VisualKind::Block }),
        v.visual_anchor == Some(anchor),
        anchor <= d.len(),
        v.cursor.offset <= d.len(),
    ensures
        ({
            let (a, b) = (d.line_of(anchor as int), d.line_of(v.cursor.offset as int));
            let (first, last) = if a <= b {
                (a, b)
            } else {
                (b, a)
            };
            let block = v.selected_block(d);
            &&& block is Some
            &&& block->0.first_line == first
            &&& block->0.rows.len() == last - first + 1
            &&& first <= i <= last ==> block->0.rows[i - first] == block_row(
                d,
                i,
                block->0.col_lo as int,
                block->0.col_hi as int,
            )
            &&& first <= i <= last ==> in_column(
                d,
                block->0.rows[i - first].0 as int,
                i,
                block->0.col_lo as int,
            )
        }),
{
    reveal(Vim::selected_block);
    d.lemma_line_of(anchor as int);
    d.lemma_line_of(v.cursor.offset as int);
    let (a, b) = (d.line_of(anchor as int), d.line_of(v.cursor.offset as int));
    let (first, last) = if a <= b {
        (a, b)
    } else {
        (b, a)
    };
    lemma_width_between_nonneg(d, d.line_start(a), anchor as int);
    lemma_width_between_nonneg(d, d.line_start(b), v.cursor.offset as int);
    let block = v.selected_block(d)->0;
    if first <= i <= last {
        lemma_in_column(d, i, block.col_lo as int);
        d.lemma_line_bounds(i);
    }
}

/// A row of a block is padded with spaces to the block's width, and one that is
/// as wide stays.
pub proof fn rows_are_padded(s: Seq<char>, w: int)
    ensures
        s.is_prefix_of(padded(s, w)),
        forall|k: int| s.len() <= k < padded(s, w).len() ==> #[trigger] padded(s, w)[k] == ' ',
        text_columns(s) <= w ==> text_columns(padded(s, w)) == w,
        text_columns(s) >= w ==> padded(s, w) == s,
{
    let n = max(w - text_columns(s), 0);
    assert(padded(s, w).take(s.len() as int) =~= s);
    lemma_padded_columns(s, n);
    if n == 0 {
        assert(padded(s, w) =~= s);
    }
}

proof fn lemma_padded_columns(s: Seq<char>, n: int)
    requires
        n >= 0,
    ensures
        text_columns(s + run_of(' ', n)) == text_columns(s) + n,
    decreases n,
{
    let t = s + run_of(' ', n);
    if n == 0 {
        assert(t =~= s);
    } else {
        assert(t.drop_last() =~= s + run_of(' ', n - 1));
        lemma_padded_columns(s, n - 1);
        assert(t.last() == ' ');
        assert(display_width(' ') == 1);
    }
}

/// `I` on a block types at the left edge of a row and `A` behind its right edge;
/// on a row that is too short both type at the end of the line.
pub proof fn where_a_row_is_typed_on(d: Doc, line: int, row: (usize, usize))
    requires
        d.wf(),
        0 <= line < d.line_count(),
    ensures
        row.0 < row.1 ==> insert_spot(d, line, row, false).0 == row.0 && insert_spot(
            d,
            line,
            row,
            true,
        ).0 == row.1,
        row.0 >= row.1 ==> insert_spot(d, line, row, false).0 == d.line_end(line) && insert_spot(
            d,
            line,
            row,
            true,
        ).0 == d.line_end(line),
{
    d.lemma_line_bounds(line);
}

/// Where a row begins once all rows are deleted: as much further front as the
/// rows before it were long.
pub proof fn rows_move_up(rows: Seq<(usize, usize)>, i: int)
    requires
        0 <= i < rows.len(),
        forall|k: int| 0 <= k < rows.len() ==> (#[trigger] rows[k]).0 <= rows[k].1,
        forall|k: int| 0 <= k < rows.len() - 1 ==> (#[trigger] rows[k]).1 <= rows[k + 1].0,
    ensures
        starts_after_delete(rows)[0] == rows[0].0,
        i + 1 < rows.len() ==> rows[i + 1].0 - starts_after_delete(rows)[i + 1] == rows[i].0
            - starts_after_delete(rows)[i] + (rows[i].1 - rows[i].0),
{
    lemma_removed_bound(rows, i);
    assert(removed_before(rows, 0) == 0);
    if i + 1 < rows.len() {
        lemma_removed_bound(rows, i + 1);
    }
}

proof fn lemma_removed_bound(rows: Seq<(usize, usize)>, i: int)
    requires
        0 <= i < rows.len(),
        forall|k: int| 0 <= k < rows.len() ==> (#[trigger] rows[k]).0 <= rows[k].1,
        forall|k: int| 0 <= k < rows.len() - 1 ==> (#[trigger] rows[k]).1 <= rows[k + 1].0,
    ensures
        0 <= removed_before(rows, i) <= rows[i].0,
    decreases i,
{
    if i > 0 {
        lemma_removed_bound(rows, i - 1);
        assert(rows[i - 1].1 <= rows[i].0);
        assert(rows[i - 1].0 <= rows[i - 1].1);
    }
}

// ---- replication -------------------------------------------------------------------------

proof fn lemma_put_down(s: Seq<usize>, x: usize)
    requires
        forall|i: int, j: int| 0 <= i < j < s.len() ==> #[trigger] s[i] >= #[trigger] s[j],
    ensures
        put_down(s, x).to_multiset() == s.to_multiset().insert(x),
        forall|i: int, j: int|
            0 <= i < j < put_down(s, x).len() ==> #[trigger] put_down(s, x)[i] >= #[trigger] put_down(
                s,
                x,
            )[j],
        put_down(s, x).len() == s.len() + 1,
    decreases s.len(),
{
    broadcast use vstd::seq_lib::group_to_multiset_ensures;

    if s.len() > 0 && s.last() < x {
        let t = s.drop_last();
        lemma_put_down(t, x);
        let p = put_down(t, x);
        let r = p.push(s.last());
        assert(put_down(s, x) == r);
        assert(s =~= t.push(s.last()));
        assert(r.to_multiset() =~= s.to_multiset().insert(x));
        assert forall|i: int, j: int| 0 <= i < j < r.len() implies #[trigger] r[i]
            >= #[trigger] r[j] by {
            if j == p.len() {
                assert(p[i] >= p.last()) by {
                    if i < p.len() - 1 {
                        assert(p[i] >= p[p.len() - 1]);
                    }
                }
                lemma_last_of_put(t, x);
            }
        }
    } else {
        let r = s.push(x);
        assert(put_down(s, x) == r);
        assert forall|i: int, j: int| 0 <= i < j < r.len() implies #[trigger] r[i]
            >= #[trigger] r[j] by {
            if j == s.len() {
                assert(s[i] >= s.last()) by {
                    if i < s.len() - 1 {
                        assert(s[i] >= s[s.len() - 1]);
                    }
                }
            }
        }
    }
}

proof fn lemma_last_of_put(s: Seq<usize>, x: usize)
    ensures
        put_down(s, x).len() > 0,
        put_down(s, x).last() == x || (s.len() > 0 && put_down(s, x).last() == s.last()),
    decreases s.len(),
{
}

/// The offsets that text is replicated at are taken from the last to the first,
/// each of them once, so that none moves before its turn.
pub proof fn offsets_go_down(s: Seq<usize>)
    ensures
        sorted_down(s).to_multiset() == s.to_multiset(),
        forall|i: int, j: int|
            0 <= i < j < sorted_down(s).len() ==> #[trigger] sorted_down(s)[i]
                >= #[trigger] sorted_down(s)[j],
    decreases s.len(),
{
    broadcast use vstd::seq_lib::group_to_multiset_ensures;

    if s.len() > 0 {
        offsets_go_down(s.drop_last());
        lemma_put_down(sorted_down(s.drop_last()), s.last());
        assert(s =~= s.drop_last().push(s.last()));
        assert(s.to_multiset() =~= s.drop_last().to_multiset().insert(s.last()));
    }
}

/// On a row below the one that was typed on the text goes further back by as
/// much as was typed; on one above it stays.
pub proof fn rows_below_have_moved(plan: BlockPlan, i: int)
    requires
        0 <= i < plan.rows.len(),
        plan.rows[i].0 + cells(plan.text).len() <= usize::MAX,
    ensures
        ({
            let (at, raw) = plan.rows[i];
            &&& raw > plan.cursor_raw ==> replica_rows(plan)[i] == at + cells(
                plan.text,
            ).len()
            &&& raw <= plan.cursor_raw ==> replica_rows(plan)[i] == at
        }),
{
}

} // verus!
