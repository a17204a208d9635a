//! Visual-block operations.
use crate::buffer::{char_display_width, clamp_to_line_end, display_width, VimBuffer, VimBufferMut};
use crate::doc::{max, min, Doc};
use crate::edits::{trim_newlines, without_newlines, run_of};
use crate::host::{hears, Env, HostCall, VimHost};
use crate::ops::{span_from_visual_block, BlockSpan, BlockView, Operator};
use crate::registers::{RegisterKind, Slot, UNNAMED};
use crate::search::pairs;
use crate::shift::plus;
use crate::state::{BlockInsert, BlockPlan, Ctx, InsertKind, Vim, VimState, World};
use crate::strs::{chars_of, split_at, split_chars, string_of, texts};
use std::ops::Range;
use vstd::prelude::*;

verus! {

// ---- rows ------------------------------------------------------------------------------------

/// How much deleting the first `n` rows takes away.
pub open spec fn removed_before(rows: Seq<(usize, usize)>, n: int) -> int
    decreases n,
{
    if n <= 0 {
        0
    } else {
        removed_before(rows, n - 1) + max(rows[n - 1].1 - rows[n - 1].0, 0)
    }
}

/// Where the rows begin once all of them are deleted.
pub open spec fn starts_after_delete(rows: Seq<(usize, usize)>) -> Seq<usize> {
    Seq::new(
        rows.len(),
        |i: int| max(rows[i].0 - removed_before(rows, i), 0) as usize,
    )
}

/// The first of some offsets.
pub open spec fn first_or_zero(s: Seq<usize>) -> int {
    if s.len() > 0 {
        s[0] as int
    } else {
        0
    }
}

/// Where the first row begins.
pub open spec fn first_start(rows: Seq<(usize, usize)>) -> int {
    if rows.len() > 0 {
        rows[0].0 as int
    } else {
        0
    }
}

impl World {
    /// The rows deleted, the last one first.
    pub open spec fn delete_rows<B: VimBufferMut>(self, rows: Seq<(usize, usize)>) -> World
        decreases rows.len(),
    {
        if rows.len() == 0 {
            self
        } else {
            self.edit_delete::<B>(rows.last().0 as int, rows.last().1 as int).delete_rows::<B>(
                rows.drop_last(),
            )
        }
    }
}

proof fn lemma_removed(rows: Seq<(usize, usize)>, n: int)
    ensures
        removed_before(rows, n) >= 0,
    decreases n,
{
    if n > 0 {
        lemma_removed(rows, n - 1);
    }
}

proof fn lemma_pairs(rows: Seq<Range<usize>>, i: int)
    requires
        0 <= i < rows.len(),
    ensures
        pairs(rows).len() == rows.len(),
        pairs(rows)[i] == (rows[i].start, rows[i].end),
{
}

/// Where each row begins ADJUSTED for the deletions above it (valid after
/// all rows are gone). Empty rows contribute no shift.
fn adjusted_starts(rows: &Vec<Range<usize>>) -> (r: Vec<usize>)
    ensures
        r@ == starts_after_delete(pairs(rows@)),
{
    let ghost all = pairs(rows@);
    let mut r: Vec<usize> = Vec::new();
    let mut shift: usize = 0;
    let mut i: usize = 0;
    while i < rows.len()
        invariant
            i <= rows.len(),
            all == pairs(rows@),
            all.len() == rows.len(),
            shift == min(removed_before(all, i as int), usize::MAX as int),
            r@ == starts_after_delete(all).take(i as int),
        decreases rows.len() - i,
    {
        proof {
            lemma_pairs(rows@, i as int);
            lemma_removed(all, i as int);
        }
        let (start, end) = (rows[i].start, rows[i].end);
        let at: usize = if start >= shift {
            start - shift
        } else {
            0
        };
        proof {
            assert(at == starts_after_delete(all)[i as int]);
            assert(starts_after_delete(all).take(i + 1) =~= starts_after_delete(all).take(
                i as int,
            ).push(at));
        }
        r.push(at);
        if end > start {
            shift = plus(shift, end - start);
        }
        i = i + 1;
    }
    proof {
        assert(starts_after_delete(all).take(i as int) =~= starts_after_delete(all));
    }
    r
}

impl VimState {
    /// Delete every block row bottom-up (keeps later offsets valid).
    fn delete_block_rows<B: VimBufferMut, H: VimHost>(
        &mut self,
        ctx: &mut Ctx<B, H>,
        rows: &Vec<Range<usize>>,
    )
        ensures
            *final(final(ctx).buf) == *final(old(ctx).buf),
            *final(final(ctx).host) == *final(old(ctx).host),
            hears(*final(ctx).host, final(self)@.told, *old(ctx).host, old(self)@.told),
            final(ctx).world(*final(self)) == old(ctx).world(*old(self)).delete_rows::<B>(
                pairs(rows@),
            ),
            final(ctx).env() == old(ctx).env(),
    {
        let ghost all = pairs(rows@);
        let ghost want = ctx.world(*self).delete_rows::<B>(all);
        let ghost e = ctx.env();
        let mut n: usize = rows.len();
        proof {
            assert(all.take(n as int) =~= all);
        }
        while n > 0
            invariant
                *final(ctx.buf) == *final(old(ctx).buf),
                *final(ctx.host) == *final(old(ctx).host),
                hears(*ctx.host, self@.told, *old(ctx).host, old(self)@.told),
                n <= rows.len(),
                all == pairs(rows@),
                all.len() == rows.len(),
                ctx.world(*self).delete_rows::<B>(all.take(n as int)) == want,
                ctx.env() == e,
            decreases n,
        {
            proof {
                lemma_pairs(rows@, n - 1);
                assert(all.take(n as int).drop_last() =~= all.take(n - 1));
                assert(all.take(n as int).last() == all[n - 1]);
            }
            n = n - 1;
            let (start, end) = (rows[n].start, rows[n].end);
            self.edit_delete(ctx, start..end);
        }
    }
}

// ---- yanking -------------------------------------------------------------------------------------

/// The width of a text on the screen.
pub open spec fn text_columns(s: Seq<char>) -> int
    decreases s.len(),
{
    if s.len() == 0 {
        0
    } else {
        text_columns(s.drop_last()) + display_width(s.last())
    }
}

fn columns_of(s: &str) -> (n: usize)
    ensures
        n == min(text_columns(s@), usize::MAX as int),
{
    let v = chars_of(s);
    let mut n: usize = 0;
    let mut i: usize = 0;
    proof {
        assert(v@.take(0) =~= Seq::empty());
    }
    while i < v.len()
        invariant
            i <= v.len(),
            n == min(text_columns(v@.take(i as int)), usize::MAX as int),
            text_columns(v@.take(i as int)) >= 0,
        decreases v.len() - i,
    {
        proof {
            assert(v@.take(i + 1).drop_last() =~= v@.take(i as int));
            assert(v@.take(i + 1).last() == v@[i as int]);
        }
        n = plus(n, char_display_width(v[i]));
        i = i + 1;
    }
    proof {
        assert(v@.take(i as int) =~= v@);
    }
    n
}

/// A row padded to the width of the block, so that a blockwise put keeps its
/// rectangle.
pub open spec fn padded(s: Seq<char>, width: int) -> Seq<char> {
    s + run_of(' ', max(width - text_columns(s), 0))
}

/// The text of the first `n` rows, padded, with newlines in between.
pub open spec fn block_text<B: VimBuffer>(
    d: Doc,
    rows: Seq<(usize, usize)>,
    width: int,
    n: int,
) -> Seq<char>
    decreases n,
{
    if n <= 0 {
        Seq::empty()
    } else {
        let row = padded(B::piece(d, rows[n - 1].0 as int, rows[n - 1].1 as int), width);
        if n == 1 {
            row
        } else {
            block_text::<B>(d, rows, width, n - 1).push('\n') + row
        }
    }
}

fn pad_row(text: String, width: usize) -> (s: String)
    ensures
        s@ == padded(text@, width as int),
{
    let have = columns_of(text.as_str());
    let mut s = text;
    if have < width {
        let pad = crate::edits::run_text(' ', width - have);
        s.push_str(pad.as_str());
    } else {
        proof {
            assert(s@ + run_of(' ', 0) =~= s@);
        }
    }
    s
}

fn read_block<B: VimBuffer>(buf: &B, rows: &Vec<Range<usize>>, width: usize) -> (s: String)
    ensures
        s@ == block_text::<B>(buf.doc(), pairs(rows@), width as int, rows@.len() as int),
{
    let ghost all = pairs(rows@);
    let mut s = String::new();
    let mut i: usize = 0;
    while i < rows.len()
        invariant
            i <= rows.len(),
            all == pairs(rows@),
            s@ == block_text::<B>(buf.doc(), all, width as int, i as int),
        decreases rows.len() - i,
    {
        proof {
            lemma_pairs(rows@, i as int);
        }
        let (start, end) = (rows[i].start, rows[i].end);
        let row = pad_row(buf.slice(start..end), width);
        if i > 0 {
            s.push('\n');
        }
        let ghost before = s@;
        s.push_str(row.as_str());
        i = i + 1;
        proof {
            if i == 1 {
                assert(before + row@ =~= row@);
            }
        }
    }
    s
}

// ---- operators -----------------------------------------------------------------------------------------

/// What is left to type on the other rows when the first row is typed on.
pub open spec fn change_plan(rows: Seq<(usize, usize)>) -> BlockPlan {
    BlockPlan {
        rows: Seq::new(
            (rows.len() - 1) as nat,
            |i: int| (starts_after_delete(rows)[i + 1], rows[i + 1].0),
        ),
        cursor_raw: rows[0].0,
        text: Seq::empty(),
    }
}

impl World {
    /// The rows of a block deleted.
    #[verifier::opaque]
    pub open spec fn delete_block<B: VimBufferMut>(self, block: BlockView) -> World {
        let w = self.begin_edit().delete_rows::<B>(block.rows).end_edit().bump::<B>();
        let w = World { vim: w.vim.reset_pending(), ..w };
        w.moved_to(
            w.doc.clamp(first_or_zero(starts_after_delete(block.rows))),
        ).finish_visual_op()
    }

    /// The rows of a block yanked, the cursor at its start.
    #[verifier::opaque]
    pub open spec fn yank_block<B: VimBufferMut>(self, block: BlockView) -> World {
        let text = block_text::<B>(
            self.doc,
            block.rows,
            max(block.col_hi - block.col_lo, 0),
            block.rows.len() as int,
        );
        let u = self.copy_out(self.vim.register, text);
        let w = u.with_registers(
            u.vim.registers.yanked(
                self.vim.register,
                (Slot { text, kind: RegisterKind::Blockwise }),
            ),
        );
        w.moved_to(w.doc.clamp(first_start(block.rows))).finish_visual_op()
    }

    /// The rows of a block deleted; what is typed then goes onto each of them.
    #[verifier::opaque]
    pub open spec fn change_block<B: VimBufferMut>(self, block: BlockView) -> World {
        let w = self.begin_edit().delete_rows::<B>(block.rows).bump::<B>();
        let w = World { vim: w.vim.reset_pending(), ..w };
        let w = w.at(w.doc.clamp(first_or_zero(starts_after_delete(block.rows))));
        let w = World {
            vim: Vim { block_insert: Some(change_plan(block.rows)), ..w.vim },
            ..w
        }.begin_insert(InsertKind::Insert);
        World { vim: w.vim.discard_record(), ..w }
    }

    /// An operator on a block selection.
    #[verifier::opaque]
    pub open spec fn operate_block<B: VimBufferMut>(self, op: Operator) -> World {
        match self.vim.selected_block(self.doc) {
            Some(block) => match op {
                Operator::Delete => self.delete_block::<B>(block),
                Operator::Yank => self.yank_block::<B>(block),
                Operator::Change => self.change_block::<B>(block),
                _ => self.say(HostCall::Bell),
            },
            None => self.say(HostCall::Bell),
        }
    }
}

fn first_row(rows: &Vec<Range<usize>>) -> (o: usize)
    ensures
        o == first_start(pairs(rows@)),
{
    if rows.len() > 0 {
        proof {
            lemma_pairs(rows@, 0);
        }
        rows[0].start
    } else {
        0
    }
}

fn first_offset(v: &Vec<usize>) -> (o: usize)
    ensures
        o == first_or_zero(v@),
{
    if v.len() > 0 {
        v[0]
    } else {
        0
    }
}

/// The rows below the first: where they begin now, and where they began.
fn other_rows(adjusted: &Vec<usize>, rows: &Vec<Range<usize>>) -> (r: Vec<(usize, usize)>)
    requires
        rows.len() > 0,
        adjusted@ == starts_after_delete(pairs(rows@)),
    ensures
        r@ == change_plan(pairs(rows@)).rows,
{
    let ghost all = pairs(rows@);
    let mut r: Vec<(usize, usize)> = Vec::new();
    let mut i: usize = 1;
    while i < rows.len()
        invariant
            1 <= i <= rows.len(),
            all == pairs(rows@),
            all.len() == rows.len(),
            adjusted@ == starts_after_delete(all),
            r@ == change_plan(all).rows.take(i - 1),
        decreases rows.len() - i,
    {
        proof {
            lemma_pairs(rows@, i as int);
            assert(change_plan(all).rows.take(i as int) =~= change_plan(all).rows.take(i - 1).push(
                (adjusted@[i as int], all[i as int].0),
            ));
        }
        r.push((adjusted[i], rows[i].start));
        i = i + 1;
    }
    proof {
        assert(change_plan(all).rows.take(i - 1) =~= change_plan(all).rows);
    }
    r
}

impl VimState {
    fn delete_block<B: VimBufferMut, H: VimHost>(&mut self, ctx: &mut Ctx<B, H>, block: &BlockSpan)
        ensures
            *final(final(ctx).buf) == *final(old(ctx).buf),
            *final(final(ctx).host) == *final(old(ctx).host),
            hears(*final(ctx).host, final(self)@.told, *old(ctx).host, old(self)@.told),
            final(ctx).world(*final(self)) == old(ctx).world(*old(self)).delete_block::<B>(block@),
            final(ctx).env() == old(ctx).env(),
    {
        proof {
            reveal(World::delete_block);
        }
        let adjusted = adjusted_starts(&block.rows);
        self.begin_edit(ctx);
        self.delete_block_rows(ctx, &block.rows);
        self.end_edit();
        self.bump(ctx);
        self.reset_pending();
        self.place_in_line(ctx, first_offset(&adjusted));
        self.finish_visual_op(ctx);
    }

    fn yank_block<B: VimBufferMut, H: VimHost>(&mut self, ctx: &mut Ctx<B, H>, block: &BlockSpan)
        ensures
            *final(final(ctx).buf) == *final(old(ctx).buf),
            *final(final(ctx).host) == *final(old(ctx).host),
            hears(*final(ctx).host, final(self)@.told, *old(ctx).host, old(self)@.told),
            final(ctx).world(*final(self)) == old(ctx).world(*old(self)).yank_block::<B>(block@),
    {
        proof {
            reveal(World::yank_block);
        }
        let width: usize = if block.col_hi >= block.col_lo {
            block.col_hi - block.col_lo
        } else {
            0
        };
        let text = read_block(&*ctx.buf, &block.rows, width);
        let register = self.register;
        self.keep_yanked(ctx, register, text, RegisterKind::Blockwise);
        self.place_in_line(ctx, first_row(&block.rows));
        self.finish_visual_op(ctx);
    }

    fn plan_block(&mut self, plan: BlockInsert)
        ensures
            final(self)@ == (Vim { block_insert: Some(plan@), ..old(self)@ }),
    {
        self.block_insert = Some(plan);
    }

    fn change_block<B: VimBufferMut, H: VimHost>(&mut self, ctx: &mut Ctx<B, H>, block: &BlockSpan)
        requires
            block.rows.len() > 0,
        ensures
            *final(final(ctx).buf) == *final(old(ctx).buf),
            *final(final(ctx).host) == *final(old(ctx).host),
            hears(*final(ctx).host, final(self)@.told, *old(ctx).host, old(self)@.told),
            final(ctx).world(*final(self)) == old(ctx).world(*old(self)).change_block::<B>(block@),
            final(ctx).env() == old(ctx).env(),
    {
        proof {
            reveal(World::change_block);
            lemma_pairs(block.rows@, 0);
        }
        let adjusted = adjusted_starts(&block.rows);
        let rows = other_rows(&adjusted, &block.rows);
        let plan = BlockInsert { rows, cursor_raw: block.rows[0].start, text: String::new() };
        proof {
            assert(plan.text@ =~= Seq::empty());
        }
        self.begin_edit(ctx);
        self.delete_block_rows(ctx, &block.rows);
        self.bump(ctx);
        self.reset_pending();
        let at = clamp_to_line_end(&*ctx.buf, first_offset(&adjusted));
        self.set_offset(at);
        self.plan_block(plan);
        self.begin_insert(ctx, InsertKind::Insert);
        self.discard_change_record();
    }

    /// Row-wise application of an operator over a visual block. Only
    /// Delete / Yank / Change are supported (other operators bell).
    pub(crate) fn apply_block_operator<B: VimBufferMut, H: VimHost>(
        &mut self,
        ctx: &mut Ctx<B, H>,
        op: Operator,
    )
        ensures
            *final(final(ctx).buf) == *final(old(ctx).buf),
            *final(final(ctx).host) == *final(old(ctx).host),
            hears(*final(ctx).host, final(self)@.told, *old(ctx).host, old(self)@.told),
            final(ctx).world(*final(self)) == old(ctx).world(*old(self)).operate_block::<B>(op),
    {
        proof {
            reveal(World::operate_block);
        }
        let block = match span_from_visual_block(self, &*ctx.buf) {
            Some(block) => block,
            None => {
                self.bell(ctx);
                return;
            },
        };
        proof {
            ctx.buf.doc_wf();
            crate::ops::lemma_block_lines(self@, ctx.buf.doc());
        }
        match op {
            Operator::Delete => self.delete_block(ctx, &block),
            Operator::Yank => self.yank_block(ctx, &block),
            Operator::Change => self.change_block(ctx, &block),
            _ => self.bell(ctx),
        }
    }
}

// ---- I and A -----------------------------------------------------------------------------------------------

/// Where text goes on a row, and where the row began: `I` inserts at its left
/// edge, `A` behind its right edge, a row that is too short at its line end.
pub open spec fn insert_spot(d: Doc, line: int, row: (usize, usize), append: bool) -> (usize, usize) {
    let end = d.line_end(line) as usize;
    if append {
        if row.0 >= row.1 {
            (end, end)
        } else {
            (row.1, row.1)
        }
    } else if row.0 >= row.1 {
        (end, row.0)
    } else {
        (row.0, row.0)
    }
}

/// The spots on the first `n` rows but that of the cursor's line.
pub open spec fn other_spots(
    d: Doc,
    block: BlockView,
    cursor_line: int,
    append: bool,
    n: int,
) -> Seq<(usize, usize)>
    decreases n,
{
    if n <= 0 {
        Seq::empty()
    } else {
        let before = other_spots(d, block, cursor_line, append, n - 1);
        let line = block.first_line + n - 1;
        if line == cursor_line {
            before
        } else {
            before.push(insert_spot(d, line, block.rows[n - 1], append))
        }
    }
}

impl World {
    /// Typing on the cursor's row of a block; the text goes onto the other
    /// rows when insert mode is left.
    #[verifier::opaque]
    pub open spec fn insert_block(self, append: bool) -> World {
        match self.vim.selected_block(self.doc) {
            Some(block) => {
                let k = self.line() - block.first_line;
                if 0 <= k < block.rows.len() {
                    let spot = insert_spot(self.doc, self.line(), block.rows[k], append);
                    let plan = BlockPlan {
                        rows: other_spots(
                            self.doc,
                            block,
                            self.line(),
                            append,
                            block.rows.len() as int,
                        ),
                        cursor_raw: spot.1,
                        text: Seq::empty(),
                    };
                    let w = self.moved_to(spot.0 as int);
                    let w = World {
                        vim: Vim { block_insert: Some(plan), ..w.vim },
                        ..w
                    }.begin_insert(InsertKind::Insert);
                    World { vim: w.vim.discard_record(), ..w }
                } else {
                    self.say(HostCall::Bell)
                }
            },
            None => self.say(HostCall::Bell),
        }
    }
}

fn spot_on<B: VimBuffer>(buf: &B, line: usize, row: &Range<usize>, append: bool) -> (r: (
    usize,
    usize,
))
    ensures
        r == insert_spot(buf.doc(), line as int, (row.start, row.end), append),
{
    let end = buf.line_end(line);
    if append {
        if row.start >= row.end {
            (end, end)
        } else {
            (row.end, row.end)
        }
    } else if row.start >= row.end {
        (end, row.start)
    } else {
        (row.start, row.start)
    }
}

fn spots_on_others<B: VimBuffer>(buf: &B, block: &BlockSpan, cursor_line: usize, append: bool) -> (r:
    Vec<(usize, usize)>)
    requires
        block.first_line + block.rows.len() <= usize::MAX,
    ensures
        r@ == other_spots(
            buf.doc(),
            block@,
            cursor_line as int,
            append,
            block.rows.len() as int,
        ),
{
    let mut r: Vec<(usize, usize)> = Vec::new();
    let mut i: usize = 0;
    while i < block.rows.len()
        invariant
            i <= block.rows.len(),
            block.first_line + block.rows.len() <= usize::MAX,
            r@ == other_spots(buf.doc(), block@, cursor_line as int, append, i as int),
        decreases block.rows.len() - i,
    {
        proof {
            lemma_pairs(block.rows@, i as int);
        }
        let line: usize = block.first_line + i;
        if line != cursor_line {
            r.push(spot_on(buf, line, &block.rows[i], append));
        }
        i = i + 1;
    }
    r
}

impl VimState {
    /// Visual-block `I` (insert at the left edge) and `A` (append at the
    /// right edge): typing lands on the cursor row, the rest replicate on
    /// exit. Short rows insert at their line end, like vim.
    pub(crate) fn begin_block_insert<B: VimBufferMut, H: VimHost>(
        &mut self,
        ctx: &mut Ctx<B, H>,
        append: bool,
    )
        ensures
            *final(final(ctx).buf) == *final(old(ctx).buf),
            *final(final(ctx).host) == *final(old(ctx).host),
            hears(*final(ctx).host, final(self)@.told, *old(ctx).host, old(self)@.told),
            final(ctx).world(*final(self)) == old(ctx).world(*old(self)).insert_block(append),
            final(ctx).env() == old(ctx).env(),
    {
        proof {
            reveal(World::insert_block);
        }
        let block = match span_from_visual_block(self, &*ctx.buf) {
            Some(block) => block,
            None => {
                self.bell(ctx);
                return;
            },
        };
        proof {
            ctx.buf.doc_wf();
            crate::ops::lemma_block_lines(self@, ctx.buf.doc());
        }
        let cursor_line = ctx.buf.offset_to_line(self.cursor.offset);
        if cursor_line < block.first_line || cursor_line - block.first_line >= block.rows.len() {
            self.bell(ctx);
            return;
        }
        let k: usize = cursor_line - block.first_line;
        proof {
            lemma_pairs(block.rows@, k as int);
        }
        let (at, raw) = spot_on(&*ctx.buf, cursor_line, &block.rows[k], append);
        let rows = spots_on_others(&*ctx.buf, &block, cursor_line, append);
        let plan = BlockInsert { rows, cursor_raw: raw, text: String::new() };
        proof {
            assert(plan.text@ =~= Seq::empty());
        }
        self.place(at);
        self.plan_block(plan);
        self.begin_insert(ctx, InsertKind::Insert);
        self.discard_change_record();
    }
}

// ---- p and P -----------------------------------------------------------------------------------------------

/// The text for row `i`: rows beyond the last text get that one.
pub open spec fn text_for_row(parts: Seq<Seq<char>>, i: int) -> Seq<char> {
    if i < parts.len() {
        parts[i]
    } else {
        parts.last()
    }
}

impl World {
    /// The first `n` rows replaced by one text each, the last one first.
    pub open spec fn replace_rows<B: VimBufferMut>(
        self,
        rows: Seq<(usize, usize)>,
        parts: Seq<Seq<char>>,
        n: int,
    ) -> World
        decreases n,
    {
        if n <= 0 {
            self
        } else {
            let row = rows[n - 1];
            let w = if row.0 < row.1 {
                self.edit_delete::<B>(row.0 as int, row.1 as int).edit_insert::<B>(
                    row.0 as int,
                    text_for_row(parts, n - 1),
                )
            } else {
                self
            };
            w.replace_rows::<B>(rows, parts, n - 1)
        }
    }

    /// A register put over the rows of a block: a blockwise one row by row,
    /// any other onto every row.
    pub open spec fn put_over_rows<B: VimBufferMut>(
        self,
        rows: Seq<(usize, usize)>,
        slot: Slot,
    ) -> World {
        let text = without_newlines(slot.text);
        if slot.kind == RegisterKind::Blockwise {
            self.replace_rows::<B>(rows, split_at(text, '\n'), rows.len() as int)
        } else {
            self.delete_rows::<B>(rows).insert_at_each::<B>(
                starts_after_delete(rows).reverse(),
                text,
            )
        }
    }

    /// `p` and `P` on a block selection.
    #[verifier::opaque]
    pub open spec fn put_over_block<B: VimBufferMut>(self, env: Env) -> World {
        let name = match self.vim.register {
            Some(name) => name,
            None => UNNAMED,
        };
        match (
            self.vim.selected_block(self.doc),
            self.vim.registers.paste_slot(name, env.clip),
        ) {
            (Some(block), Some(slot)) => {
                let w = World {
                    vim: Vim { recording_blocked: true, ..self.vim },
                    ..self
                }.begin_edit().put_over_rows::<B>(block.rows, slot);
                w.moved_to(w.doc.clamp(first_start(block.rows))).end_edit().bump::<B>().finish_visual_op()
            },
            _ => self.say(HostCall::Bell),
        }
    }
}

fn reversed(v: &Vec<usize>) -> (r: Vec<usize>)
    ensures
        r@ == v@.reverse(),
{
    let mut r: Vec<usize> = Vec::new();
    let mut n: usize = v.len();
    while n > 0
        invariant
            n <= v.len(),
            r@ == v@.reverse().take(v.len() - n),
        decreases n,
    {
        n = n - 1;
        r.push(v[n]);
        proof {
            assert(r@ =~= v@.reverse().take(v.len() - n));
        }
    }
    proof {
        assert(v@.reverse().take(v.len() - n) =~= v@.reverse());
    }
    r
}

impl VimState {
    fn replace_rows<B: VimBufferMut, H: VimHost>(
        &mut self,
        ctx: &mut Ctx<B, H>,
        rows: &Vec<Range<usize>>,
        parts: &Vec<Vec<char>>,
    )
        requires
            parts.len() > 0,
        ensures
            *final(final(ctx).buf) == *final(old(ctx).buf),
            *final(final(ctx).host) == *final(old(ctx).host),
            hears(*final(ctx).host, final(self)@.told, *old(ctx).host, old(self)@.told),
            final(ctx).world(*final(self)) == old(ctx).world(*old(self)).replace_rows::<B>(
                pairs(rows@),
                texts(parts@),
                rows.len() as int,
            ),
            final(ctx).env() == old(ctx).env(),
    {
        let ghost all = pairs(rows@);
        let ghost ts = texts(parts@);
        let ghost want = ctx.world(*self).replace_rows::<B>(all, ts, rows.len() as int);
        let ghost e = ctx.env();
        let mut n: usize = rows.len();
        while n > 0
            invariant
                *final(ctx.buf) == *final(old(ctx).buf),
                *final(ctx.host) == *final(old(ctx).host),
                hears(*ctx.host, self@.told, *old(ctx).host, old(self)@.told),
                n <= rows.len(),
                parts.len() > 0,
                all == pairs(rows@),
                ts == texts(parts@),
                ctx.world(*self).replace_rows::<B>(all, ts, n as int) == want,
                ctx.env() == e,
            decreases n,
        {
            proof {
                lemma_pairs(rows@, n - 1);
            }
            n = n - 1;
            let (start, end) = (rows[n].start, rows[n].end);
            if start < end {
                let k: usize = if n < parts.len() {
                    n
                } else {
                    parts.len() - 1
                };
                let part = &parts[k];
                let text = string_of(part, 0, part.len());
                proof {
                    assert(part@.subrange(0, part@.len() as int) =~= part@);
                    assert(text@ == text_for_row(ts, n as int));
                }
                self.edit_delete(ctx, start..end);
                self.edit_insert(ctx, start, text.as_str());
            }
        }
    }

    fn put_over_rows<B: VimBufferMut, H: VimHost>(
        &mut self,
        ctx: &mut Ctx<B, H>,
        rows: &Vec<Range<usize>>,
        text: &str,
        kind: RegisterKind,
    )
        ensures
            *final(final(ctx).buf) == *final(old(ctx).buf),
            *final(final(ctx).host) == *final(old(ctx).host),
            hears(*final(ctx).host, final(self)@.told, *old(ctx).host, old(self)@.told),
            final(ctx).world(*final(self)) == old(ctx).world(*old(self)).put_over_rows::<B>(
                pairs(rows@),
                (Slot { text: text@, kind }),
            ),
            final(ctx).env() == old(ctx).env(),
    {
        let text = trim_newlines(text);
        if kind == RegisterKind::Blockwise {
            let parts = split_chars(&chars_of(text.as_str()), '\n');
            self.replace_rows(ctx, rows, &parts);
        } else {
            let upward = reversed(&adjusted_starts(rows));
            self.delete_block_rows(ctx, rows);
            self.insert_at_each(ctx, &upward, text.as_str());
        }
    }

    pub(crate) fn block_recording(&mut self)
        ensures
            final(self)@ == (Vim { recording_blocked: true, ..old(self)@ }),
    {
        self.recording_blocked = true;
    }

    /// Visual-block `p`/`P`: a blockwise register replaces the block row by
    /// row; any other register's text is replicated onto every row.
    pub(crate) fn block_put_replace<B: VimBufferMut, H: VimHost>(&mut self, ctx: &mut Ctx<B, H>)
        ensures
            *final(final(ctx).buf) == *final(old(ctx).buf),
            *final(final(ctx).host) == *final(old(ctx).host),
            hears(*final(ctx).host, final(self)@.told, *old(ctx).host, old(self)@.told),
            final(ctx).world(*final(self)) == old(ctx).world(*old(self)).put_over_block::<B>(
                old(ctx).env(),
            ),
            final(ctx).env() == old(ctx).env(),
    {
        proof {
            reveal(World::put_over_block);
        }
        let register = match self.register {
            Some(name) => name,
            None => UNNAMED,
        };
        let block = match span_from_visual_block(self, &*ctx.buf) {
            Some(block) => block,
            None => {
                self.bell(ctx);
                return;
            },
        };
        let data = match self.registers.get_for_paste(register, &*ctx.host) {
            Some(data) => data,
            None => {
                self.bell(ctx);
                return;
            },
        };
        self.block_recording();
        self.begin_edit(ctx);
        self.put_over_rows(ctx, &block.rows, data.text.as_str(), data.kind);
        self.place_in_line(ctx, first_row(&block.rows));
        self.end_edit();
        self.bump(ctx);
        self.finish_visual_op(ctx);
    }
}

} // verus!
