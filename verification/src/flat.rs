//! Flattened documents: a canonical text, and the piece table that maps its
//! bytes back to what a host renders.
//!
//! While rendering, a host feeds its pieces into a [`FlatDoc`]. The text and
//! the offsets are produced by the same walk, so they cannot drift apart.
use crate::cells::{boundary, cells, lemma_cells_concat, lemma_cells_well_formed, width};
use crate::doc::{max, min};
use crate::pager::PagerBuf;
use crate::strs::{byte_len, copy_str};
use crate::text::{
    ceil_at, ceil_in, cells_of, floor_at, floor_in, lemma_ceil_in, lemma_floor_in,
};
use std::ops::Range;
use vstd::prelude::*;

verus! {

/// One render unit: a contiguous run of text carrying the host's annotation.
#[derive(Debug, PartialEq, Eq)]
pub struct Piece<S> {
    /// Piece text, always equal to `canonical_text[flat]`.
    pub text: String,
    /// Host-defined per-piece annotation (style/metadata); opaque to the
    /// engine. Named for the common case.
    pub style: S,
    /// Byte range of this piece within the canonical text.
    pub flat: Range<usize>,
}

/// A text group: the render unit-of-account (one paragraph / heading / list
/// item / table cell / code block). A group's `flat` covers all of its pieces
/// plus any raw separators the host pushed between them.
#[derive(Debug, PartialEq, Eq)]
pub struct Group<S> {
    pub pieces: Vec<Piece<S>>,
    /// Byte range within the canonical text.
    pub flat: Range<usize>,
}

#[derive(Debug, PartialEq, Eq)]
struct PendingGroup<S> {
    start: usize,
    pieces: Vec<Piece<S>>,
}

/// A flattened document: the canonical text plus the piece table that maps
/// byte offsets back to render units.
///
/// Build order is render order. Separators pushed between groups via
/// [`FlatDoc::push_raw`] are part of the canonical text (the engine must see
/// the line structure) but belong to no piece, so selection spans never cover
/// them.
#[derive(Debug, PartialEq, Eq)]
pub struct FlatDoc<S> {
    /// Canonical text — exactly what the engine's buffer sees.
    pub text: String,
    /// Groups in render order; their `flat`s are disjoint ranges into `text`.
    pub groups: Vec<Group<S>>,
    /// Open group (see [`FlatDoc::open_group`]); not part of the document
    /// until [`FlatDoc::close_group`].
    pending: Option<PendingGroup<S>>,
}

// ---- model ---------------------------------------------------------------------------------------

/// A piece, as the contracts speak of it.
pub struct Run<S> {
    pub text: Seq<char>,
    pub style: S,
    pub start: int,
    pub end: int,
}

/// A group, as the contracts speak of it.
pub struct Unit<S> {
    pub runs: Seq<Run<S>>,
    pub start: int,
    pub end: int,
}

/// A document, as the contracts speak of it: its text, the groups that are
/// complete, and where an open group starts with its pieces so far.
pub struct Flat<S> {
    pub text: Seq<char>,
    pub units: Seq<Unit<S>>,
    pub open: Option<(int, Seq<Run<S>>)>,
}

impl<S> View for Piece<S> {
    type V = Run<S>;

    open spec fn view(&self) -> Run<S> {
        Run {
            text: self.text@,
            style: self.style,
            start: self.flat.start as int,
            end: self.flat.end as int,
        }
    }
}

pub open spec fn runs<S>(v: Seq<Piece<S>>) -> Seq<Run<S>> {
    v.map_values(|p: Piece<S>| p@)
}

impl<S> View for Group<S> {
    type V = Unit<S>;

    open spec fn view(&self) -> Unit<S> {
        Unit {
            runs: runs(self.pieces@),
            start: self.flat.start as int,
            end: self.flat.end as int,
        }
    }
}

pub open spec fn units<S>(v: Seq<Group<S>>) -> Seq<Unit<S>> {
    v.map_values(|g: Group<S>| g@)
}

impl<S> View for FlatDoc<S> {
    type V = Flat<S>;

    closed spec fn view(&self) -> Flat<S> {
        Flat {
            text: self.text@,
            units: units(self.groups@),
            open: match self.pending {
                Some(p) => Some((p.start as int, runs(p.pieces@))),
                None => None,
            },
        }
    }
}

impl<S> Flat<S> {
    pub open spec fn empty() -> Flat<S> {
        Flat { text: Seq::empty(), units: Seq::empty(), open: None }
    }

    /// Length of the text in bytes.
    pub open spec fn len(self) -> int {
        cells(self.text).len() as int
    }

    pub open spec fn raw(self, raw: Seq<char>) -> Flat<S> {
        Flat { text: self.text + raw, ..self }
    }

    /// The open group complete; one that nothing was appended to is dropped.
    pub open spec fn closed(self) -> Flat<S> {
        match self.open {
            Some((start, runs)) => Flat {
                units: if self.len() > start {
                    self.units.push(Unit { runs, start, end: self.len() })
                } else {
                    self.units
                },
                open: None,
                ..self
            },
            None => self,
        }
    }

    pub open spec fn opened(self) -> Flat<S> {
        Flat { open: Some((self.len(), Seq::empty())), ..self.closed() }
    }

    /// One piece appended to the open group, which is opened if need be.
    pub open spec fn piece(self, text: Seq<char>, style: S) -> Flat<S> {
        let f = if self.open is Some {
            self
        } else {
            self.opened()
        };
        let (start, runs) = f.open->0;
        let run = Run { text, style, start: f.len(), end: f.len() + cells(text).len() };
        Flat { text: f.text + text, open: Some((start, runs.push(run))), ..f }
    }

    pub open spec fn pieces(self, all: Seq<(Seq<char>, S)>) -> Flat<S>
        decreases all.len(),
    {
        if all.len() == 0 {
            self
        } else {
            self.pieces(all.drop_last()).piece(all.last().0, all.last().1)
        }
    }

    /// The pieces cover their texts, in order, between `lo` and `hi`.
    pub open spec fn covers(self, runs: Seq<Run<S>>, lo: int, hi: int) -> bool {
        &&& forall|i: int|
            0 <= i < runs.len() ==> lo <= (#[trigger] runs[i]).start <= runs[i].end <= hi
                && cells(self.text).subrange(runs[i].start, runs[i].end) == cells(runs[i].text)
        &&& forall|i: int, j: int|
            0 <= i < j < runs.len() ==> (#[trigger] runs[i]).end <= (#[trigger] runs[j]).start
    }

    /// The table matches the text: groups and pieces are disjoint ranges, in
    /// order, and each piece's range of the text is the piece's own text.
    pub open spec fn wf(self) -> bool {
        &&& forall|i: int|
            0 <= i < self.units.len() ==> 0 <= (#[trigger] self.units[i]).start
                < self.units[i].end <= self.len() && self.covers(
                self.units[i].runs,
                self.units[i].start,
                self.units[i].end,
            )
        &&& forall|i: int, j: int|
            0 <= i < j < self.units.len() ==> (#[trigger] self.units[i]).end <= (
            #[trigger] self.units[j]).start
        &&& self.open matches Some((start, runs)) ==> 0 <= start <= self.len() && self.covers(
            runs,
            start,
            self.len(),
        ) && forall|i: int|
            0 <= i < self.units.len() ==> (#[trigger] self.units[i]).end <= start
    }
}

/// Text appended to the document leaves the table right.
pub proof fn raw_text_keeps_the_table<S>(f: Flat<S>, raw: Seq<char>)
    requires
        f.wf(),
    ensures
        f.raw(raw).wf(),
        f.raw(raw).units == f.units,
{
    let g = f.raw(raw);
    lemma_cells_concat(f.text, raw);
    assert forall|runs: Seq<Run<S>>, lo: int, hi: int| 0 <= lo && hi <= f.len() && #[trigger] f.covers(
        runs,
        lo,
        hi,
    ) implies g.covers(runs, lo, hi) by {
        assert forall|i: int| 0 <= i < runs.len() implies lo <= (#[trigger] runs[i]).start
            <= runs[i].end <= hi && cells(g.text).subrange(runs[i].start, runs[i].end) == cells(
            runs[i].text,
        ) by {
            assert(cells(g.text).subrange(runs[i].start, runs[i].end) =~= cells(f.text).subrange(
                runs[i].start,
                runs[i].end,
            ));
        }
    }
    assert forall|i: int| 0 <= i < g.units.len() implies 0 <= (#[trigger] g.units[i]).start
        < g.units[i].end <= g.len() && g.covers(
        g.units[i].runs,
        g.units[i].start,
        g.units[i].end,
    ) by {
        assert(f.covers(f.units[i].runs, f.units[i].start, f.units[i].end));
    }
    if let Some((start, runs)) = f.open {
        assert(g.covers(runs, start, f.len()));
        assert(g.covers(runs, start, g.len()));
    }
}

/// Closing a group leaves the table right.
pub proof fn closing_keeps_the_table<S>(f: Flat<S>)
    requires
        f.wf(),
    ensures
        f.closed().wf(),
        f.closed().text == f.text,
{
    let g = f.closed();
    assert forall|i: int| 0 <= i < g.units.len() implies 0 <= (#[trigger] g.units[i]).start
        < g.units[i].end <= g.len() && g.covers(
        g.units[i].runs,
        g.units[i].start,
        g.units[i].end,
    ) by {
        if i < f.units.len() {
            assert(g.units[i] == f.units[i]);
            assert(f.covers(f.units[i].runs, f.units[i].start, f.units[i].end));
            assert(g.covers(f.units[i].runs, f.units[i].start, f.units[i].end));
        } else {
            let (start, runs) = f.open->0;
            assert(f.covers(runs, start, f.len()));
            assert(g.covers(runs, start, f.len()));
        }
    }
    assert forall|i: int, j: int| 0 <= i < j < g.units.len() implies (#[trigger] g.units[i]).end
        <= (#[trigger] g.units[j]).start by {
        assert(g.units[i] == f.units[i]);
        if j < f.units.len() {
            assert(g.units[j] == f.units[j]);
        }
    }
}

/// Opening a group leaves the table right.
pub proof fn opening_keeps_the_table<S>(f: Flat<S>)
    requires
        f.wf(),
    ensures
        f.opened().wf(),
        f.opened().text == f.text,
{
    closing_keeps_the_table(f);
    let c = f.closed();
    let g = f.opened();
    assert forall|i: int| 0 <= i < g.units.len() implies 0 <= (#[trigger] g.units[i]).start
        < g.units[i].end <= g.len() && g.covers(
        g.units[i].runs,
        g.units[i].start,
        g.units[i].end,
    ) by {
        assert(c.covers(c.units[i].runs, c.units[i].start, c.units[i].end));
    }
}

/// A piece appended leaves the table right, and its range is its text.
pub proof fn pieces_keep_the_table<S>(f: Flat<S>, text: Seq<char>, style: S)
    requires
        f.wf(),
    ensures
        f.piece(text, style).wf(),
        f.piece(text, style).text == f.text + text,
{
    opening_keeps_the_table(f);
    let o = if f.open is Some {
        f
    } else {
        f.opened()
    };
    raw_text_keeps_the_table(o, text);
    lemma_cells_concat(o.text, text);
    let r = o.raw(text);
    let g = f.piece(text, style);
    let (start, runs) = o.open->0;
    let (_, all) = g.open->0;
    assert(cells(g.text).subrange(o.len(), g.len()) =~= cells(text));
    assert forall|i: int| 0 <= i < g.units.len() implies 0 <= (#[trigger] g.units[i]).start
        < g.units[i].end <= g.len() && g.covers(
        g.units[i].runs,
        g.units[i].start,
        g.units[i].end,
    ) by {
        assert(r.covers(r.units[i].runs, r.units[i].start, r.units[i].end));
    }
    assert(o.covers(runs, start, o.len()));
    assert(r.covers(runs, start, r.len()));
    assert forall|i: int| 0 <= i < all.len() implies start <= (#[trigger] all[i]).start
        <= all[i].end <= g.len() && cells(g.text).subrange(all[i].start, all[i].end) == cells(
        all[i].text,
    ) by {
        if i < runs.len() {
            assert(all[i] == runs[i]);
        }
    }
    assert forall|i: int, j: int| 0 <= i < j < all.len() implies (#[trigger] all[i]).end <= (
    #[trigger] all[j]).start by {
        assert(all[i] == runs[i]);
        if j < runs.len() {
            assert(all[j] == runs[j]);
        }
    }
    assert(g.covers(all, start, g.len()));
}

// ---- building ------------------------------------------------------------------------------------

impl<S> Default for FlatDoc<S> {
    fn default() -> (d: Self)
        ensures
            d@ == Flat::<S>::empty(),
    {
        let d = FlatDoc { text: String::new(), groups: Vec::new(), pending: None };
        proof {
            assert(d@.text =~= Seq::empty());
            assert(d@.units =~= Seq::empty());
        }
        d
    }
}

/// The texts and annotations of a list of pieces.
pub open spec fn pairs<S>(v: Seq<(String, S)>) -> Seq<(Seq<char>, S)> {
    v.map_values(|p: (String, S)| (p.0@, p.1))
}

impl<S> FlatDoc<S> {
    pub fn new() -> (d: Self)
        ensures
            d@ == Flat::<S>::empty(),
            d@.wf(),
    {
        Self::default()
    }

    /// Append raw separator text (`"\n\n"` between paragraphs, `"\n"` between
    /// table rows, ...) — canonical text that belongs to no piece. Inside an
    /// open group (see [`FlatDoc::open_group`]) it stays within that group's
    /// range, mirroring code-block lines.
    pub fn push_raw(&mut self, raw: &str)
        ensures
            final(self)@ == old(self)@.raw(raw@),
            old(self)@.wf() ==> final(self)@.wf(),
    {
        proof {
            if self@.wf() {
                raw_text_keeps_the_table(self@, raw@);
            }
        }
        self.text.push_str(raw);
    }

    /// Push one group of contiguous pieces — the pieces' texts are appended
    /// back-to-back with no separator. A group that would be empty (nothing
    /// appended since the current text position) is skipped, which keeps
    /// empty render units out of the table.
    pub fn push_group(&mut self, pieces: Vec<(String, S)>)
        ensures
            final(self)@ == old(self)@.opened().pieces(pairs(pieces@)).closed(),
            old(self)@.wf() ==> final(self)@.wf(),
    {
        let ghost all = pairs(pieces@);
        self.open_group();
        let ghost first = self@;
        let ghost sound = first.wf();
        proof {
            assert(all.take(0) =~= Seq::empty());
        }
        let n = pieces.len();
        for p in iter: pieces
            invariant
                iter.seq() == pieces@,
                all == pairs(pieces@),
                self@ == first.pieces(all.take(iter.index() as int)),
                sound ==> self@.wf(),
        {
            let ghost i = iter.index() as int;
            proof {
                assert(all.take(i + 1).drop_last() =~= all.take(i));
                assert(all.take(i + 1).last() == (p.0@, p.1));
            }
            let (text, style) = p;
            self.push_piece(text, style);
        }
        proof {
            assert(all.take(n as int) =~= all);
        }
        self.close_group();
    }

    /// Start a group; pieces (and intra-group raw separators) pushed until
    /// [`FlatDoc::close_group`] form one group. Groups must not nest; opening
    /// while one is open implicitly closes it first.
    pub fn open_group(&mut self)
        ensures
            final(self)@ == old(self)@.opened(),
            old(self)@.wf() ==> final(self)@.wf(),
    {
        proof {
            if self@.wf() {
                opening_keeps_the_table(self@);
            }
        }
        self.close_group();
        self.pending = Some(
            PendingGroup { start: byte_len(self.text.as_str()), pieces: Vec::new() },
        );
        proof {
            assert((self@.open->0).1 =~= Seq::empty());
        }
    }

    /// Append one piece at the current text position. Outside an open group
    /// this implicitly opens one.
    pub fn push_piece(&mut self, text: String, style: S)
        ensures
            final(self)@ == old(self)@.piece(text@, style),
            old(self)@.wf() ==> final(self)@.wf(),
    {
        proof {
            if self@.wf() {
                pieces_keep_the_table(self@, text@, style);
            }
            lemma_cells_concat(self@.text, text@);
        }
        if self.pending.is_none() {
            self.open_group();
        }
        let ghost opened = self@;
        if let Some(pending) = self.pending.take() {
            let mut pieces = pending.pieces;
            let ghost before = pieces@;
            let start = byte_len(self.text.as_str());
            self.text.push_str(text.as_str());
            let end = byte_len(self.text.as_str());
            let piece = Piece { text, style, flat: start..end };
            let ghost run = piece@;
            pieces.push(piece);
            proof {
                assert(runs(pieces@) =~= runs(before).push(run));
            }
            self.pending = Some(PendingGroup { start: pending.start, pieces });
        }
    }

    /// Finalize the open group; a no-op when nothing was appended (empty
    /// group). Closing with no open group is a no-op.
    pub fn close_group(&mut self)
        ensures
            final(self)@ == old(self)@.closed(),
            old(self)@.wf() ==> final(self)@.wf(),
    {
        proof {
            if self@.wf() {
                closing_keeps_the_table(self@);
            }
        }
        if let Some(pending) = self.pending.take() {
            let end = byte_len(self.text.as_str());
            if end > pending.start {
                let ghost before = self.groups@;
                let group = Group { pieces: pending.pieces, flat: pending.start..end };
                let ghost unit = group@;
                self.groups.push(group);
                proof {
                    assert(units(self.groups@) =~= units(before).push(unit));
                }
            }
        }
    }

    pub fn text(&self) -> (s: &str)
        ensures
            s@ == self@.text,
    {
        self.text.as_str()
    }

    pub fn groups(&self) -> (g: &[Group<S>])
        ensures
            units(g@) == self@.units,
    {
        self.groups.as_slice()
    }

    pub fn into_text(self) -> (s: String)
        ensures
            s@ == self@.text,
    {
        self.text
    }

    /// Convenience: a [`PagerBuf`] over a clone of the canonical text.
    pub fn pager_buf(&self) -> (b: PagerBuf)
        ensures
            b.chars() == self@.text,
    {
        PagerBuf::new(copy_str(self.text.as_str()))
    }
}

/// Consume piece groups in flatten order while rendering (the host walks its
/// content tree in the same order it built the [`FlatDoc`], so each `next`
/// yields the group for the unit being rendered).
pub struct GroupCursor<'a, S> {
    groups: &'a [Group<S>],
    pos: usize,
}

impl<'a, S> GroupCursor<'a, S> {
    /// The groups that the cursor walks over.
    pub closed spec fn all(self) -> Seq<Group<S>> {
        self.groups@
    }

    /// How many groups were consumed.
    pub closed spec fn done(self) -> int {
        self.pos as int
    }

    pub fn new(groups: &'a [Group<S>]) -> (c: Self)
        ensures
            c.all() == groups@,
            c.done() == 0,
    {
        GroupCursor { groups, pos: 0 }
    }

    /// The next group, if one is left.
    pub fn next(&mut self) -> (g: Option<&'a Group<S>>)
        ensures
            final(self).all() == old(self).all(),
            g is Some == (old(self).done() < old(self).all().len()),
            g matches Some(v) ==> *v == old(self).all()[old(self).done()] && final(self).done()
                == old(self).done() + 1,
            g is None ==> final(self).done() == old(self).done(),
    {
        if self.pos < self.groups.len() {
            let at = self.pos;
            self.pos = self.pos + 1;
            Some(&self.groups[at])
        } else {
            None
        }
    }

    /// Index of the group just consumed.
    pub fn last_index(&self) -> (i: Option<usize>)
        ensures
            i is Some == (self.done() > 0),
            i matches Some(v) ==> v == self.done() - 1,
    {
        if self.pos == 0 {
            None
        } else {
            Some(self.pos - 1)
        }
    }
}

// ---- byte/char boundary helpers ------------------------------------------------------------------

/// Largest char boundary `<= i`.
pub fn floor_boundary(s: &str, i: usize) -> (r: usize)
    ensures
        r == floor_in(cells(s@), i as int),
{
    floor_at(&cells_of(s), i)
}

/// Smallest char boundary `>= i`.
pub fn ceil_boundary(s: &str, i: usize) -> (r: usize)
    ensures
        r == ceil_in(cells(s@), i as int),
{
    ceil_at(&cells_of(s), i)
}

// ---- selection read-back -------------------------------------------------------------------------

pub open spec fn clamped(x: int, lo: int, hi: int) -> int {
    max(lo, min(x, hi))
}

impl<S> Run<S> {
    /// What the selection `[a, b)` covers of the piece, in the piece's own
    /// offsets: rounded out to whole characters, or all of it when linewise.
    pub open spec fn covered(self, a: int, b: int, line: bool) -> Option<(int, int)> {
        let t = cells(self.text);
        if line {
            if self.start < b && self.end > a {
                Some((0, t.len() as int))
            } else {
                None
            }
        } else {
            let s = floor_in(t, clamped(a, self.start, self.end) - self.start);
            let e = ceil_in(t, clamped(b, self.start, self.end) - self.start);
            if s < e {
                Some((s, e))
            } else {
                None
            }
        }
    }
}

/// The pieces that a selection covers, in order: index and range.
pub open spec fn spans<S>(runs: Seq<Run<S>>, a: int, b: int, line: bool) -> Seq<(int, int, int)>
    decreases runs.len(),
{
    if runs.len() == 0 {
        Seq::empty()
    } else {
        let rest = spans(runs.drop_last(), a, b, line);
        match runs.last().covered(a, b, line) {
            Some((s, e)) => rest.push((runs.len() - 1, s, e)),
            None => rest,
        }
    }
}

pub open spec fn ranges(v: Seq<(usize, Range<usize>)>) -> Seq<(int, int, int)> {
    v.map_values(|p: (usize, Range<usize>)| (p.0 as int, p.1.start as int, p.1.end as int))
}

fn covered<S>(p: &Piece<S>, sel: &Range<usize>, line: bool) -> (r: Option<Range<usize>>)
    requires
        !line ==> p.flat.start <= p.flat.end,
    ensures
        r is Some == p@.covered(sel.start as int, sel.end as int, line) is Some,
        r matches Some(v) ==> p@.covered(sel.start as int, sel.end as int, line) == Some(
            (v.start as int, v.end as int),
        ),
{
    if line {
        if p.flat.start < sel.end && p.flat.end > sel.start {
            Some(0..byte_len(p.text.as_str()))
        } else {
            None
        }
    } else {
        let (lo, hi) = (p.flat.start, p.flat.end);
        let t = cells_of(p.text.as_str());
        let s = floor_at(&t, clamp_into(sel.start, lo, hi) - lo);
        let e = ceil_at(&t, clamp_into(sel.end, lo, hi) - lo);
        if s < e {
            Some(s..e)
        } else {
            None
        }
    }
}

pub(crate) fn clamp_into(x: usize, lo: usize, hi: usize) -> (r: usize)
    requires
        lo <= hi,
    ensures
        r == clamped(x as int, lo as int, hi as int),
        lo <= r <= hi,
{
    if x < lo {
        lo
    } else if x > hi {
        hi
    } else {
        x
    }
}

/// Map a byte selection onto a group's pieces: `[(piece index, piece-local
/// byte range)]`, or `None` when the group is not covered.
///
/// Charwise (`line == false`): the selection is clamped into each piece and
/// rounded out to char boundaries, so a multi-byte character straddling the
/// selection edge is covered whole. Linewise: every piece the selection
/// overlaps is covered in full.
pub fn selection_spans<S>(group: &Group<S>, sel: Range<usize>, line: bool) -> (r: Option<
    Vec<(usize, Range<usize>)>,
>)
    requires
        !line ==> forall|i: int|
            0 <= i < group.pieces.len() ==> (#[trigger] group.pieces@[i]).flat.start
                <= group.pieces@[i].flat.end,
    ensures
        r is Some == (spans(group@.runs, sel.start as int, sel.end as int, line).len() > 0),
        r matches Some(v) ==> ranges(v@) == spans(
            group@.runs,
            sel.start as int,
            sel.end as int,
            line,
        ),
{
    let ghost all = group@.runs;
    let ghost a = sel.start as int;
    let ghost b = sel.end as int;
    let mut out: Vec<(usize, Range<usize>)> = Vec::new();
    let mut i: usize = 0;
    proof {
        assert(all.take(0) =~= Seq::empty());
        assert(ranges(out@) =~= Seq::empty());
    }
    while i < group.pieces.len()
        invariant
            i <= group.pieces.len(),
            all == runs(group.pieces@),
            a == sel.start,
            b == sel.end,
            !line ==> forall|k: int|
                0 <= k < group.pieces.len() ==> (#[trigger] group.pieces@[k]).flat.start
                    <= group.pieces@[k].flat.end,
            ranges(out@) == spans(all.take(i as int), a, b, line),
        decreases group.pieces.len() - i,
    {
        proof {
            assert(group.pieces@[i as int].flat.start == group.pieces@[i as int].flat.start);
            assert(all.take(i + 1).drop_last() =~= all.take(i as int));
            assert(all.take(i + 1).last() == group.pieces@[i as int]@);
        }
        if let Some(range) = covered(&group.pieces[i], &sel, line) {
            let ghost before = out@;
            let ghost one = (i as int, range.start as int, range.end as int);
            out.push((i, range));
            proof {
                assert(ranges(out@) =~= ranges(before).push(one));
            }
        }
        i = i + 1;
    }
    proof {
        assert(all.take(i as int) =~= all);
        assert(ranges(out@).len() == out@.len());
    }
    if out.len() == 0 {
        None
    } else {
        Some(out)
    }
}

/// Every range that a selection covers lies within its piece, holds whole
/// characters of it, and is not empty unless the piece is. Separators belong
/// to no piece, so none is covered.
pub proof fn spans_lie_in_their_pieces<S>(
    runs: Seq<Run<S>>,
    a: int,
    b: int,
    line: bool,
    k: int,
)
    requires
        forall|i: int|
            0 <= i < runs.len() ==> (#[trigger] runs[i]).end - runs[i].start == cells(
                runs[i].text,
            ).len(),
        0 <= k < spans(runs, a, b, line).len(),
    ensures
        ({
            let (i, s, e) = spans(runs, a, b, line)[k];
            &&& 0 <= i < runs.len()
            &&& 0 <= s <= e <= cells(runs[i].text).len()
            &&& s == e ==> runs[i].text.len() == 0
            &&& boundary(cells(runs[i].text), s)
            &&& boundary(cells(runs[i].text), e)
        }),
    decreases runs.len(),
{
    let rest = runs.drop_last();
    assert forall|i: int| 0 <= i < rest.len() implies (#[trigger] rest[i]).end - rest[i].start
        == cells(rest[i].text).len() by {
        assert(rest[i] == runs[i]);
    }
    if k < spans(rest, a, b, line).len() {
        spans_lie_in_their_pieces(rest, a, b, line, k);
        let (i, s, e) = spans(rest, a, b, line)[k];
        assert(rest[i] == runs[i]);
    } else {
        let p = runs.last();
        assert(runs[runs.len() - 1] == p);
        let t = cells(p.text);
        lemma_cells_well_formed(p.text);
        lemma_floor_in(t, clamped(a, p.start, p.end) - p.start);
        lemma_ceil_in(t, clamped(b, p.start, p.end) - p.start);
        if p.text.len() > 0 {
            assert(t.len() >= width(p.text.last()));
        }
    }
}

/// A charwise selection covers every byte of it that lies in a piece.
pub proof fn selected_bytes_are_covered<S>(p: Run<S>, a: int, b: int, o: int)
    requires
        p.end - p.start == cells(p.text).len(),
        a <= o < b,
        p.start <= o < p.end,
    ensures
        p.covered(a, b, false) is Some,
        (p.covered(a, b, false)->0).0 <= o - p.start < (p.covered(a, b, false)->0).1,
        p.covered(a, b, true) is Some,
{
    let t = cells(p.text);
    lemma_cells_well_formed(p.text);
    lemma_floor_in(t, clamped(a, p.start, p.end) - p.start);
    lemma_ceil_in(t, clamped(b, p.start, p.end) - p.start);
}

} // verus!
