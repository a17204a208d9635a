//! Motions: pure cursor-target computations.
//!
//! [`target`] computes where a motion lands and what *kind* of span it
//! describes (`Exclusive`/`Inclusive`/`Linewise`). Turning a target into an
//! operator range — including vim's special cases (`dw` never joins lines,
//! `cw` acts like `ce`, the column-1 rules) — lives in [`crate::ops`].
use crate::buffer::{
    at_column, cluster_end, cluster_start, column_of, display_column, next_grapheme_offset,
    offset_for_display_column, prev_grapheme_offset, VimBuffer, VimBufferMut,
};
use crate::doc::{max, min, Doc};
use crate::host::{hears, HostCall, VimHost};
use crate::objects::{blanks_start, leaves_blanks_back};
use crate::search::{
    jump_to_match, opt_pair, pair_of, pairs, search_word_under_cursor,
};
use crate::shift::plus;
use crate::state::{Ctx, Vim, VimState, World};
use crate::word::{
    find_after, find_before, find_char_backward, find_char_forward, match_bracket,
    matching_bracket, next_paragraph, next_sentence, next_word_end, next_word_start,
    paragraph_after, paragraph_before, prev_paragraph, prev_sentence, prev_word_end,
    prev_word_start, scan_back, sentence_after, sentence_before, word_end_after, word_end_before,
    word_start_after, word_start_before,
};
use std::ops::Range;
use vstd::prelude::*;

verus! {

#[derive(Clone, Copy, Debug, PartialEq, Eq, Structural)]
pub enum Motion {
    Left,
    Right,
    Up,
    Down,
    LineStart,
    FirstNonBlank,
    LineEnd,
    /// `g_`
    LastLineNonBlank,
    WordStart { big: bool },
    WordEnd { big: bool },
    WordBack { big: bool },
    WordEndBack { big: bool },
    FindChar { forward: bool, till: bool },
    /// `;` `,`
    RepeatFind { reverse: bool },
    /// `%`
    MatchBracket,
    /// `{count}%`
    FilePercent,
    /// `gg` / `G`
    GoToLine { first: bool },
    ParaNext,
    ParaPrev,
    SentenceNext,
    SentencePrev,
    /// `n` / `N`
    SearchNext { forward: bool },
    /// `*` / `#`
    StarSearch { forward: bool },
    /// `'{char}` / `` `{char} `` as operator target
    MarkJump { linewise: bool },
    /// `|` (to count column)
    Column,
    ScreenTop,
    ScreenMiddle,
    ScreenBottom,
    ScrollHalfDown,
    ScrollHalfUp,
    PageDown,
    PageUp,
    /// `enter` / `+`
    LineDownFirstNonBlank,
    /// `-`
    LineUpFirstNonBlank,
}

#[derive(Clone, Copy, Debug, PartialEq, Eq, Structural)]
pub enum MotionKind {
    Exclusive,
    Inclusive,
    Linewise,
}

#[derive(Clone, Copy, Debug, PartialEq, Eq, Structural)]
pub struct MotionResult {
    pub offset: usize,
    pub kind: MotionKind,
    /// False when the motion could not move (e.g. `h` at buffer start).
    pub moved: bool,
}

impl Motion {
    /// The kind of span that the motion describes as an operator target.
    pub open spec fn span_kind(self) -> MotionKind {
        match self {
            Motion::Up
            | Motion::Down
            | Motion::FilePercent
            | Motion::GoToLine { .. }
            | Motion::ScreenTop
            | Motion::ScreenMiddle
            | Motion::ScreenBottom
            | Motion::PageUp
            | Motion::PageDown
            | Motion::LineDownFirstNonBlank
            | Motion::LineUpFirstNonBlank => MotionKind::Linewise,
            Motion::LineEnd
            | Motion::LastLineNonBlank
            | Motion::WordEnd { .. }
            | Motion::WordEndBack { .. }
            | Motion::MatchBracket
            | Motion::FindChar { till: false, .. }
            | Motion::RepeatFind { .. } => MotionKind::Inclusive,
            _ => MotionKind::Exclusive,
        }
    }

    pub fn kind(&self) -> (k: MotionKind)
        ensures
            k == self.span_kind(),
    {
        match self {
            Motion::Up
            | Motion::Down
            | Motion::FilePercent
            | Motion::GoToLine { .. }
            | Motion::ScreenTop
            | Motion::ScreenMiddle
            | Motion::ScreenBottom
            | Motion::PageUp
            | Motion::PageDown
            | Motion::LineDownFirstNonBlank
            | Motion::LineUpFirstNonBlank => MotionKind::Linewise,
            Motion::LineEnd
            | Motion::LastLineNonBlank
            | Motion::WordEnd { .. }
            | Motion::WordEndBack { .. }
            | Motion::MatchBracket
            | Motion::FindChar { till: false, .. }
            | Motion::RepeatFind { .. } => MotionKind::Inclusive,
            _ => MotionKind::Exclusive,
        }
    }

    /// The motion belongs on the jumplist.
    pub open spec fn jumps(self) -> bool {
        match self {
            Motion::GoToLine { .. }
            | Motion::FilePercent
            | Motion::SearchNext { .. }
            | Motion::StarSearch { .. }
            | Motion::ParaNext
            | Motion::ParaPrev
            | Motion::SentenceNext
            | Motion::SentencePrev
            | Motion::MatchBracket
            | Motion::ScreenTop
            | Motion::ScreenMiddle
            | Motion::ScreenBottom
            | Motion::ScrollHalfDown
            | Motion::ScrollHalfUp
            | Motion::PageUp
            | Motion::PageDown
            | Motion::MarkJump { .. } => true,
            _ => false,
        }
    }

    /// Whether this motion is a "jump" in vim's sense: it belongs on the
    /// jumplist reachable with `C-o` / `C-i`.
    pub fn is_jump(self) -> (b: bool)
        ensures
            b == self.jumps(),
    {
        match self {
            Motion::GoToLine { .. }
            | Motion::FilePercent
            | Motion::SearchNext { .. }
            | Motion::StarSearch { .. }
            | Motion::ParaNext
            | Motion::ParaPrev
            | Motion::SentenceNext
            | Motion::SentencePrev
            | Motion::MatchBracket
            | Motion::ScreenTop
            | Motion::ScreenMiddle
            | Motion::ScreenBottom
            | Motion::ScrollHalfDown
            | Motion::ScrollHalfUp
            | Motion::PageUp
            | Motion::PageDown
            | Motion::MarkJump { .. } => true,
            _ => false,
        }
    }
}

// ---- single steps -----------------------------------------------------------------------

/// One step of a motion that is repeated `count` times.
pub open spec fn one_step(d: Doc, o: int, m: Motion) -> int {
    match m {
        Motion::WordEnd { big } => word_end_after(d, o, big),
        Motion::WordBack { big } => word_start_before(d, o, big),
        Motion::WordEndBack { big } => word_end_before(d, o, big),
        Motion::ParaNext => paragraph_after(d, o),
        Motion::ParaPrev => paragraph_before(d, o),
        Motion::SentenceNext => sentence_after(d, o),
        Motion::SentencePrev => sentence_before(d, o),
        _ => o,
    }
}

pub open spec fn many_steps(d: Doc, o: int, m: Motion, n: int) -> int
    decreases n,
{
    if n <= 0 {
        o
    } else {
        many_steps(d, one_step(d, o, m), m, n - 1)
    }
}

proof fn lemma_resting(d: Doc, o: int, m: Motion, n: int)
    requires
        one_step(d, o, m) == o,
    ensures
        many_steps(d, o, m, n) == o,
    decreases n,
{
    if n > 0 {
        lemma_resting(d, o, m, n - 1);
    }
}

fn step<B: VimBuffer>(buf: &B, o: usize, m: Motion) -> (r: usize)
    ensures
        r == one_step(buf.doc(), o as int, m),
{
    match m {
        Motion::WordEnd { big } => next_word_end(buf, o, big),
        Motion::WordBack { big } => prev_word_start(buf, o, big),
        Motion::WordEndBack { big } => prev_word_end(buf, o, big),
        Motion::ParaNext => next_paragraph(buf, o),
        Motion::ParaPrev => prev_paragraph(buf, o),
        Motion::SentenceNext => next_sentence(buf, o),
        Motion::SentencePrev => prev_sentence(buf, o),
        _ => o,
    }
}

fn steps_of<B: VimBuffer>(buf: &B, from: usize, m: Motion, count: usize) -> (r: usize)
    ensures
        r == many_steps(buf.doc(), from as int, m, count as int),
{
    let ghost d = buf.doc();
    let mut o: usize = from;
    let mut left: usize = count;
    while left > 0
        invariant
            d == buf.doc(),
            many_steps(d, o as int, m, left as int) == many_steps(d, from as int, m, count as int),
        decreases left,
    {
        let next = step(buf, o, m);
        if next == o {
            proof {
                lemma_resting(d, o as int, m, left as int);
            }
            return o;
        }
        o = next;
        left = left - 1;
    }
    o
}

/// `n` words on; the end of the text ends the walk.
pub open spec fn words_on(d: Doc, o: int, big: bool, n: int) -> int
    decreases n,
{
    if n <= 0 {
        o
    } else {
        let next = word_start_after(d, o, big);
        if next >= d.len() {
            next
        } else {
            words_on(d, next, big, n - 1)
        }
    }
}

fn go_words_on<B: VimBuffer>(buf: &B, from: usize, big: bool, count: usize) -> (r: usize)
    ensures
        r == words_on(buf.doc(), from as int, big, count as int),
{
    let ghost d = buf.doc();
    let mut o: usize = from;
    let mut left: usize = count;
    while left > 0
        invariant
            d == buf.doc(),
            words_on(d, o as int, big, left as int) == words_on(d, from as int, big, count as int),
        decreases left,
    {
        let next = next_word_start(buf, o, big);
        if next >= buf.len() {
            return next;
        }
        o = next;
        left = left - 1;
    }
    o
}

/// The start of the cluster before `o`.
pub open spec fn prev_cluster(d: Doc, o: int) -> Option<int> {
    match d.prev(o) {
        Some(p) => Some(cluster_start(d, p)),
        None => None,
    }
}

/// The start of the cluster behind the one at `o`.
pub open spec fn next_cluster(d: Doc, o: int) -> Option<int> {
    match d.next(o) {
        Some(n) => Some(cluster_end(d, n)),
        None => None,
    }
}

/// `n` clusters to the left, within the line.
pub open spec fn clusters_left(d: Doc, o: int, n: int) -> int
    decreases n,
{
    if n <= 0 {
        o
    } else {
        match prev_cluster(d, o) {
            Some(p) => if p >= d.line_start(d.line_of(o)) {
                clusters_left(d, p, n - 1)
            } else {
                o
            },
            None => o,
        }
    }
}

fn go_left<B: VimBuffer>(buf: &B, from: usize, count: usize) -> (r: usize)
    ensures
        r == clusters_left(buf.doc(), from as int, count as int),
{
    let ghost d = buf.doc();
    let mut o: usize = from;
    let mut left: usize = count;
    while left > 0
        invariant
            d == buf.doc(),
            clusters_left(d, o as int, left as int) == clusters_left(
                d,
                from as int,
                count as int,
            ),
        decreases left,
    {
        match prev_grapheme_offset(buf, o) {
            Some(prev) => {
                if prev < buf.line_start(buf.offset_to_line(o)) {
                    return o;
                }
                o = prev;
            },
            None => {
                return o;
            },
        }
        left = left - 1;
    }
    o
}

/// `n` clusters to the right, never onto the newline.
pub open spec fn clusters_right(d: Doc, o: int, n: int) -> int
    decreases n,
{
    if n <= 0 {
        o
    } else {
        let end = d.line_end(d.line_of(o));
        match next_cluster(d, o) {
            Some(next) => if o < end && next < end {
                clusters_right(d, next, n - 1)
            } else {
                o
            },
            None => o,
        }
    }
}

proof fn lemma_cluster_end(d: Doc, n: int)
    requires
        d.wf(),
    ensures
        n <= cluster_end(d, n),
    decreases d.len() - n,
{
    d.lemma_char_fits(n);
    if let Some(m) = d.next(n) {
        d.lemma_char_fits(m);
        if n < m <= d.len() && crate::buffer::joins_cluster(d, n) {
            match d.next(m) {
                Some(k) => {
                    if m < k <= d.len() {
                        lemma_cluster_end(d, k);
                    }
                },
                None => {},
            }
            lemma_cluster_end(d, m);
        }
    }
}

/// `l` stays in its line and never steps onto the newline.
pub proof fn right_stays_off_the_newline(d: Doc, o: int, n: int)
    requires
        d.wf(),
        0 <= o < d.line_end(d.line_of(o)),
    ensures
        o <= clusters_right(d, o, n) < d.line_end(d.line_of(o)),
    decreases n,
{
    let line = d.line_of(o);
    d.lemma_line_of(o);
    d.lemma_line_bounds(line);
    d.lemma_char_fits(o);
    if n > 0 {
        if let Some(next) = next_cluster(d, o) {
            lemma_cluster_end(d, d.next(o)->0);
            if next < d.line_end(line) {
                d.lemma_line_of_unique(next, line);
                right_stays_off_the_newline(d, next, n - 1);
            }
        }
    }
}

fn go_right<B: VimBuffer>(buf: &B, from: usize, count: usize) -> (r: usize)
    ensures
        r == clusters_right(buf.doc(), from as int, count as int),
{
    let ghost d = buf.doc();
    let mut o: usize = from;
    let mut left: usize = count;
    while left > 0
        invariant
            d == buf.doc(),
            clusters_right(d, o as int, left as int) == clusters_right(
                d,
                from as int,
                count as int,
            ),
        decreases left,
    {
        let end = buf.line_end(buf.offset_to_line(o));
        if o >= end {
            return o;
        }
        // `next < end`: never step onto the newline position
        match next_grapheme_offset(buf, o) {
            Some(next) => {
                if next >= end {
                    return o;
                }
                o = next;
            },
            None => {
                return o;
            },
        }
        left = left - 1;
    }
    o
}

/// The `n`-th hit of a find.
pub open spec fn found(d: Doc, o: int, c: char, forward: bool, till: bool, n: int) -> Option<int>
    decreases n,
{
    if n <= 0 {
        Some(o)
    } else {
        let hit = if forward {
            find_after(d, o, c, till)
        } else {
            find_before(d, o, c, till)
        };
        match hit {
            Some(h) => found(d, h, c, forward, till, n - 1),
            None => None,
        }
    }
}

fn find_from<B: VimBuffer>(
    buf: &B,
    from: usize,
    target: char,
    forward: bool,
    till: bool,
    count: usize,
) -> (r: MotionResult)
    ensures
        r == found_landing(buf.doc(), from, target, forward, till, count as int),
{
    let ghost d = buf.doc();
    let mut o: usize = from;
    let mut left: usize = count;
    while left > 0
        invariant
            d == buf.doc(),
            found(d, o as int, target, forward, till, left as int) == found(
                d,
                from as int,
                target,
                forward,
                till,
                count as int,
            ),
        decreases left,
    {
        let hit = if forward {
            find_char_forward(buf, o, target, till)
        } else {
            find_char_backward(buf, o, target, till)
        };
        match hit {
            Some(h) => {
                o = h;
            },
            None => {
                return MotionResult::stuck(from);
            },
        }
        left = left - 1;
    }
    MotionResult::new(
        o,
        if till {
            MotionKind::Exclusive
        } else {
            MotionKind::Inclusive
        },
    )
}

// ---- where a motion lands ---------------------------------------------------------------

pub open spec fn lands(o: int, kind: MotionKind) -> MotionResult {
    MotionResult { offset: o as usize, kind, moved: true }
}

pub open spec fn stays(o: usize) -> MotionResult {
    MotionResult { offset: o, kind: MotionKind::Exclusive, moved: false }
}

/// A motion that fails when it does not leave `from`.
pub open spec fn lands_off(from: usize, o: int, kind: MotionKind) -> MotionResult {
    if o == from {
        stays(from)
    } else {
        lands(o, kind)
    }
}

impl MotionResult {
    fn new(offset: usize, kind: MotionKind) -> (r: Self)
        ensures
            r == lands(offset as int, kind),
    {
        MotionResult { offset, kind, moved: true }
    }

    fn stuck(offset: usize) -> (r: Self)
        ensures
            r == stays(offset),
    {
        MotionResult { offset, kind: MotionKind::Exclusive, moved: false }
    }

    fn off(from: usize, offset: usize, kind: MotionKind) -> (r: Self)
        ensures
            r == lands_off(from, offset as int, kind),
    {
        if offset == from {
            MotionResult::stuck(from)
        } else {
            MotionResult::new(offset, kind)
        }
    }
}

pub open spec fn found_landing(
    d: Doc,
    from: usize,
    c: char,
    forward: bool,
    till: bool,
    n: int,
) -> MotionResult {
    match found(d, from as int, c, forward, till, n) {
        Some(o) => lands(
            o,
            if till {
                MotionKind::Exclusive
            } else {
                MotionKind::Inclusive
            },
        ),
        None => stays(from),
    }
}

/// The start of the last character of line `i`; its start when it is empty.
pub open spec fn last_char(d: Doc, i: int) -> int {
    let end = d.line_end(i);
    if end == d.line_start(i) {
        end
    } else {
        match d.prev(end) {
            Some(p) => p,
            None => end,
        }
    }
}

/// The last character of line `i` that is not blank; its start when there is
/// none.
pub open spec fn last_non_blank(d: Doc, i: int) -> int {
    let start = d.line_start(i);
    let o = scan_back(d, d.line_end(i), leaves_blanks_back(d, start));
    if o <= start {
        start
    } else {
        match d.prev(o) {
            Some(p) => p,
            None => start,
        }
    }
}

/// `i` capped to the lines that there are.
pub open spec fn capped(d: Doc, i: int) -> int {
    min(i, d.line_count() - 1)
}

/// `count` lines up or down from `line`, as far as there are lines.
pub open spec fn lines_away(d: Doc, line: int, count: int, down: bool) -> int {
    if down {
        capped(d, line + count)
    } else {
        max(line - count, 0)
    }
}

impl Vim {
    /// The column that vertical moves keep to.
    pub open spec fn column(self, d: Doc) -> int {
        match self.cursor.desired_col {
            Some(col) => col as int,
            None => column_of(d, self.cursor.offset as int),
        }
    }
}

/// The line at `count` percent of the text.
pub open spec fn percent_line(d: Doc, count: int) -> int {
    capped(d, (count * d.line_count() + 99) / 100 - 1)
}

/// The line that `H`, `M` or `L` goes to.
pub open spec fn screen_line(d: Doc, seen: (usize, usize), m: Motion, count: int) -> int {
    let (first, last) = seen;
    capped(
        d,
        match m {
            Motion::ScreenTop => min(min(first + count - 1, usize::MAX as int), last as int),
            Motion::ScreenMiddle => (first + last) / 2,
            _ => max(max(last - (count - 1), 0), first as int),
        },
    )
}

/// How many lines a scroll motion goes.
pub open spec fn scroll_step(seen: (usize, usize), m: Motion) -> int {
    let visible = max(max(seen.1 - seen.0, 0), 1);
    match m {
        Motion::PageDown | Motion::PageUp => visible,
        _ => visible / 2,
    }
}

pub open spec fn vertical_landing(v: Vim, d: Doc, count: int, down: bool) -> MotionResult {
    let line = d.line_of(v.cursor.offset as int);
    let to = lines_away(d, line, count, down);
    if to == line {
        stays(v.cursor.offset)
    } else {
        lands(at_column(d, to, v.column(d)), MotionKind::Linewise)
    }
}

pub open spec fn mark_landing(v: Vim, d: Doc, linewise: bool) -> MotionResult {
    match v.char_arg {
        Some(name) => match v.marks.resolved(name) {
            Some(at) => {
                let o = min(at as int, d.len());
                if linewise {
                    lands(d.line_start(d.line_of(o)), MotionKind::Linewise)
                } else {
                    lands(o, MotionKind::Exclusive)
                }
            },
            None => stays(v.cursor.offset),
        },
        None => stays(v.cursor.offset),
    }
}

pub open spec fn match_landing(v: Vim, forward: bool, count: int) -> MotionResult {
    match v.next_match(forward, count) {
        Some(m) => lands(m.0 as int, MotionKind::Exclusive),
        None => stays(v.cursor.offset),
    }
}

/// The direction of `n` or `N`: that of the last search, or against it.
pub open spec fn search_direction(v: Vim, same: bool) -> bool {
    if same {
        v.search.forward
    } else {
        !v.search.forward
    }
}

/// The first match that starts at `o`.
pub open spec fn match_at(matches: Seq<(usize, usize)>, i: int, o: int) -> Option<(usize, usize)>
    decreases matches.len() - i,
{
    if i < 0 || i >= matches.len() {
        None
    } else if matches[i].0 == o {
        Some(matches[i])
    } else {
        match_at(matches, i + 1, o)
    }
}

/// The engine after the search that a motion makes; other motions leave it as
/// it is. `n` and `N` publish the matches again.
#[verifier::opaque]
pub open spec fn searched<B: VimBuffer>(v: Vim, d: Doc, m: Motion, count: int) -> Vim {
    match m {
        Motion::SearchNext { forward } => {
            let w = v.with_fresh_matches::<B>(d);
            match w.next_match(search_direction(v, forward), count) {
                Some(hit) => if v.options.hlsearch {
                    w.say(
                        HostCall::Highlights(
                            w.search.matches,
                            match_at(w.search.matches, 0, hit.0 as int),
                        ),
                    )
                } else {
                    w
                },
                None => w,
            }
        },
        Motion::StarSearch { forward } => v.with_word_pattern::<B>(d, forward).with_fresh_matches::<
            B,
        >(d),
        _ => v,
    }
}

/// Where a motion lands from the cursor, given the lines that are seen.
#[verifier::opaque]
pub open spec fn landing<B: VimBuffer>(
    v: Vim,
    d: Doc,
    seen: (usize, usize),
    m: Motion,
    count: int,
) -> MotionResult {
    let from = v.cursor.offset;
    let o = from as int;
    let line = d.line_of(o);
    match m {
        Motion::Left => lands_off(from, clusters_left(d, o, count), MotionKind::Exclusive),
        Motion::Right => lands_off(from, clusters_right(d, o, count), MotionKind::Exclusive),
        Motion::Up => vertical_landing(v, d, count, false),
        Motion::Down => vertical_landing(v, d, count, true),
        Motion::LineStart => lands(d.line_start(line), MotionKind::Exclusive),
        Motion::FirstNonBlank => lands(d.first_non_blank(line), MotionKind::Exclusive),
        Motion::LineEnd => lands(last_char(d, line), MotionKind::Inclusive),
        Motion::LastLineNonBlank => lands(
            last_non_blank(d, capped(d, line + count - 1)),
            MotionKind::Inclusive,
        ),
        Motion::WordStart { big } => lands(
            min(words_on(d, o, big, count), d.len()),
            MotionKind::Exclusive,
        ),
        Motion::WordEnd { .. } => lands(many_steps(d, o, m, count), MotionKind::Inclusive),
        Motion::WordEndBack { .. } => lands_off(
            from,
            many_steps(d, o, m, count),
            MotionKind::Inclusive,
        ),
        Motion::WordBack { .. }
        | Motion::ParaNext
        | Motion::ParaPrev
        | Motion::SentenceNext
        | Motion::SentencePrev => lands(many_steps(d, o, m, count), MotionKind::Exclusive),
        Motion::FindChar { forward, till } => match v.last_find {
            Some((c, _, _)) => found_landing(d, from, c, forward, till, count),
            None => stays(from),
        },
        Motion::RepeatFind { reverse } => match v.last_find {
            Some((c, forward, till)) => found_landing(
                d,
                from,
                c,
                if reverse {
                    !forward
                } else {
                    forward
                },
                till,
                count,
            ),
            None => stays(from),
        },
        Motion::MatchBracket => match matching_bracket(d, o) {
            Some(p) => lands(p, MotionKind::Inclusive),
            None => stays(from),
        },
        Motion::FilePercent => if count > 100 {
            stays(from)
        } else {
            lands(d.line_start(percent_line(d, count)), MotionKind::Linewise)
        },
        Motion::GoToLine { first } => lands(
            d.line_start(
                if count > 1 {
                    capped(d, count - 1)
                } else if first {
                    0
                } else {
                    d.line_count() - 1
                },
            ),
            MotionKind::Linewise,
        ),
        Motion::SearchNext { forward } => match_landing(
            v.with_fresh_matches::<B>(d),
            search_direction(v, forward),
            count,
        ),
        Motion::StarSearch { forward } => match_landing(
            v.with_word_pattern::<B>(d, forward).with_fresh_matches::<B>(d),
            forward,
            1,
        ),
        Motion::MarkJump { linewise } => mark_landing(v, d, linewise),
        Motion::Column => lands(at_column(d, line, count - 1), MotionKind::Exclusive),
        Motion::ScreenTop | Motion::ScreenMiddle | Motion::ScreenBottom => lands(
            d.line_start(screen_line(d, seen, m, count)),
            MotionKind::Linewise,
        ),
        Motion::ScrollHalfDown | Motion::PageDown => lands(
            at_column(d, lines_away(d, line, scroll_step(seen, m), true), v.column(d)),
            MotionKind::Linewise,
        ),
        Motion::ScrollHalfUp | Motion::PageUp => lands(
            at_column(d, lines_away(d, line, scroll_step(seen, m), false), v.column(d)),
            MotionKind::Linewise,
        ),
        Motion::LineDownFirstNonBlank => lands(
            d.first_non_blank(lines_away(d, line, count, true)),
            MotionKind::Linewise,
        ),
        Motion::LineUpFirstNonBlank => lands(
            d.first_non_blank(lines_away(d, line, count, false)),
            MotionKind::Linewise,
        ),
    }
}

// ---- computing it -------------------------------------------------------------------------

fn line_away<B: VimBuffer>(buf: &B, line: usize, count: usize, down: bool) -> (r: usize)
    requires
        line < buf.doc().line_count(),
    ensures
        r == lines_away(buf.doc(), line as int, count as int, down),
        r < buf.doc().line_count(),
{
    let last = buf.line_count() - 1;
    if down {
        let to = plus(line, count);
        if to <= last {
            to
        } else {
            last
        }
    } else if count <= line {
        line - count
    } else {
        0
    }
}

fn cap_line<B: VimBuffer>(buf: &B, line: usize) -> (r: usize)
    ensures
        r == capped(buf.doc(), line as int),
{
    proof {
        buf.doc_wf();
    }
    let last = buf.line_count() - 1;
    if line <= last {
        line
    } else {
        last
    }
}

fn end_of_line<B: VimBuffer>(buf: &B, line: usize) -> (r: usize)
    ensures
        r == last_char(buf.doc(), line as int),
{
    let end = buf.line_end(line);
    if end == buf.line_start(line) {
        return end;
    }
    match buf.prev_char_offset(end) {
        Some(p) => p,
        None => end,
    }
}

fn end_of_text_on<B: VimBuffer>(buf: &B, line: usize) -> (r: usize)
    ensures
        r == last_non_blank(buf.doc(), line as int),
{
    let start = buf.line_start(line);
    let o = blanks_start(buf, buf.line_end(line), start);
    if o <= start {
        return start;
    }
    match buf.prev_char_offset(o) {
        Some(p) => p,
        None => start,
    }
}

fn percent<B: VimBuffer>(buf: &B, count: usize) -> (r: usize)
    requires
        1 <= count <= 100,
    ensures
        r == percent_line(buf.doc(), count as int),
{
    proof {
        buf.doc_wf();
    }
    let lines = buf.line_count();
    let ghost n = lines as int;
    assert(count * n <= 100 * n) by (nonlinear_arith)
        requires
            1 <= count <= 100,
            n >= 1,
    ;
    assert(count * n >= 1) by (nonlinear_arith)
        requires
            1 <= count <= 100,
            n >= 1,
    ;
    let product: u128 = (count as u128) * (lines as u128);
    let line = ((product + 99) / 100 - 1) as usize;
    cap_line(buf, line)
}

fn screen<B: VimBuffer>(buf: &B, seen: (usize, usize), m: Motion, count: usize) -> (r: usize)
    requires
        count >= 1,
    ensures
        r == screen_line(buf.doc(), seen, m, count as int),
{
    let (first, last) = seen;
    let line: usize = match m {
        Motion::ScreenTop => {
            let top = plus(first, count - 1);
            if top <= last {
                top
            } else {
                last
            }
        },
        Motion::ScreenMiddle => (((first as u128) + (last as u128)) / 2) as usize,
        _ => {
            let bottom: usize = if last >= count - 1 {
                last - (count - 1)
            } else {
                0
            };
            if bottom >= first {
                bottom
            } else {
                first
            }
        },
    };
    cap_line(buf, line)
}

fn scroll_lines(seen: (usize, usize), m: Motion) -> (r: usize)
    ensures
        r == scroll_step(seen, m),
{
    let (first, last) = seen;
    let visible: usize = if last > first {
        last - first
    } else {
        1
    };
    match m {
        // half-page for <C-d>/<C-u>, full page for <C-f>/<C-b>
        Motion::PageDown | Motion::PageUp => visible,
        _ => visible / 2,
    }
}

impl VimState {
    /// Column helper for vertical motions.
    pub(crate) fn desired_column<B: VimBuffer>(&self, buf: &B) -> (col: usize)
        ensures
            col == self@.column(buf.doc()),
    {
        match self.cursor.desired_col {
            Some(col) => col,
            None => display_column(buf, self.cursor.offset),
        }
    }
}

fn go_vertical<B: VimBuffer>(vim: &VimState, buf: &B, count: usize, down: bool) -> (r: MotionResult)
    ensures
        r == vertical_landing(vim@, buf.doc(), count as int, down),
{
    proof {
        buf.doc_wf();
        buf.doc().lemma_line_of(vim.cursor.offset as int);
    }
    let line = buf.offset_to_line(vim.cursor.offset);
    let to = line_away(buf, line, count, down);
    if to == line {
        MotionResult::stuck(vim.cursor.offset)
    } else {
        let desired = vim.desired_column(buf);
        MotionResult::new(offset_for_display_column(buf, to, desired), MotionKind::Linewise)
    }
}

fn go_scroll<B: VimBuffer>(
    vim: &VimState,
    buf: &B,
    seen: (usize, usize),
    m: Motion,
    down: bool,
) -> (r: MotionResult)
    ensures
        r == lands(
            at_column(
                buf.doc(),
                lines_away(
                    buf.doc(),
                    buf.doc().line_of(vim@.cursor.offset as int),
                    scroll_step(seen, m),
                    down,
                ),
                vim@.column(buf.doc()),
            ),
            MotionKind::Linewise,
        ),
{
    proof {
        buf.doc_wf();
        buf.doc().lemma_line_of(vim.cursor.offset as int);
    }
    let line = line_away(
        buf,
        buf.offset_to_line(vim.cursor.offset),
        scroll_lines(seen, m),
        down,
    );
    // keep the DISPLAY column, exactly like j/k: `desired` counts cells, so
    // on CJK/Tab rows it must be mapped back to a byte offset
    let desired = vim.desired_column(buf);
    MotionResult::new(offset_for_display_column(buf, line, desired), MotionKind::Linewise)
}

fn go_line<B: VimBuffer>(vim: &VimState, buf: &B, count: usize, down: bool) -> (r: MotionResult)
    ensures
        r == lands(
            buf.doc().first_non_blank(
                lines_away(
                    buf.doc(),
                    buf.doc().line_of(vim@.cursor.offset as int),
                    count as int,
                    down,
                ),
            ),
            MotionKind::Linewise,
        ),
{
    proof {
        buf.doc_wf();
        buf.doc().lemma_line_of(vim.cursor.offset as int);
    }
    let line = line_away(buf, buf.offset_to_line(vim.cursor.offset), count, down);
    MotionResult::new(buf.first_non_blank(line), MotionKind::Linewise)
}

fn go_to_mark<B: VimBuffer>(vim: &VimState, buf: &B, linewise: bool) -> (r: MotionResult)
    ensures
        r == mark_landing(vim@, buf.doc(), linewise),
{
    let name = match vim.char_arg {
        Some(name) => name,
        None => {
            return MotionResult::stuck(vim.cursor.offset);
        },
    };
    match vim.marks.resolve(name) {
        Some(at) => {
            let len = buf.len();
            let o: usize = if at <= len {
                at
            } else {
                len
            };
            if linewise {
                MotionResult::new(buf.line_start(buf.offset_to_line(o)), MotionKind::Linewise)
            } else {
                MotionResult::new(o, MotionKind::Exclusive)
            }
        },
        None => MotionResult::stuck(vim.cursor.offset),
    }
}

fn go_to_line<B: VimBuffer>(buf: &B, first: bool, count: usize) -> (r: MotionResult)
    ensures
        r == lands(
            buf.doc().line_start(
                if count > 1 {
                    capped(buf.doc(), count - 1)
                } else if first {
                    0
                } else {
                    buf.doc().line_count() - 1
                },
            ),
            MotionKind::Linewise,
        ),
{
    proof {
        buf.doc_wf();
    }
    let line: usize = if count > 1 {
        cap_line(buf, count - 1)
    } else if first {
        0
    } else {
        buf.line_count() - 1
    };
    MotionResult::new(buf.line_start(line), MotionKind::Linewise)
}

pub(crate) fn match_starting_at(matches: &Vec<Range<usize>>, o: usize) -> (r: Option<Range<usize>>)
    ensures
        opt_pair(r) == match_at(pairs(matches@), 0, o as int),
{
    let ghost all = pairs(matches@);
    let mut i: usize = 0;
    while i < matches.len()
        invariant
            i <= matches.len(),
            all == pairs(matches@),
            match_at(all, i as int, o as int) == match_at(all, 0, o as int),
        decreases matches.len() - i,
    {
        proof {
            assert(all[i as int] == pair_of(matches@[i as int]));
        }
        if matches[i].start == o {
            return Some(matches[i].start..matches[i].end);
        }
        i = i + 1;
    }
    None
}

/// `n` / `N`: jump to the count-th next/previous match of the active pattern.
fn go_to_match<B: VimBufferMut, H: VimHost>(
    vim: &mut VimState,
    ctx: &mut Ctx<B, H>,
    same: bool,
    count: usize,
) -> (r: MotionResult)
    ensures
        *final(final(ctx).buf) == *final(old(ctx).buf),
        *final(final(ctx).host) == *final(old(ctx).host),
        hears(*final(ctx).host, final(vim)@.told, *old(ctx).host, old(vim)@.told),
        final(ctx).world(*final(vim)) == (World {
            vim: searched::<B>(
                old(vim)@,
                old(ctx).buf.doc(),
                Motion::SearchNext { forward: same },
                count as int,
            ),
            ..old(ctx).world(*old(vim))
        }),
        r == match_landing(
            old(vim)@.with_fresh_matches::<B>(old(ctx).buf.doc()),
            search_direction(old(vim)@, same),
            count as int,
        ),
        final(ctx).env() == old(ctx).env(),
{
    proof {
        reveal(searched);
        reveal(Vim::with_fresh_matches);
    }
    let direction = if same {
        vim.search.forward
    } else {
        !vim.search.forward
    };
    match jump_to_match(vim, &*ctx.buf, direction, count) {
        Some(o) => {
            // re-publish the matches: after Esc dismissed the highlights
            // (`:noh` semantics) `n`/`N` re-arms them
            if vim.options.hlsearch {
                let current = match_starting_at(&vim.search.last_matches, o);
                let matches = crate::search::copy_ranges(&vim.search.last_matches);
                vim.publish(ctx.host, &matches, current);
            }
            MotionResult::new(o, MotionKind::Exclusive)
        },
        None => MotionResult::stuck(vim.cursor.offset),
    }
}

/// `*` / `#`: word under cursor becomes the pattern, then jump.
fn go_to_word<B: VimBufferMut, H: VimHost>(
    vim: &mut VimState,
    ctx: &mut Ctx<B, H>,
    forward: bool,
) -> (r: MotionResult)
    ensures
        *final(final(ctx).buf) == *final(old(ctx).buf),
        *final(final(ctx).host) == *final(old(ctx).host),
        hears(*final(ctx).host, final(vim)@.told, *old(ctx).host, old(vim)@.told),
        final(ctx).world(*final(vim)) == (World {
            vim: old(vim)@.with_word_pattern::<B>(old(ctx).buf.doc(), forward).with_fresh_matches::<
                B,
            >(old(ctx).buf.doc()),
            ..old(ctx).world(*old(vim))
        }),
        r == match_landing(
            old(vim)@.with_word_pattern::<B>(old(ctx).buf.doc(), forward).with_fresh_matches::<B>(
                old(ctx).buf.doc(),
            ),
            forward,
            1,
        ),
        final(ctx).env() == old(ctx).env(),
{
    search_word_under_cursor(vim, &*ctx.buf, ctx.host, forward);
    match jump_to_match(vim, &*ctx.buf, forward, 1) {
        Some(o) => MotionResult::new(o, MotionKind::Exclusive),
        None => MotionResult::stuck(vim.cursor.offset),
    }
}

/// The motions that neither search nor ask the host.
fn plain_target<B: VimBuffer>(vim: &VimState, buf: &B, m: Motion, count: usize) -> (r: MotionResult)
    requires
        count >= 1,
        !(m is SearchNext) && !(m is StarSearch) && !(m is ScreenTop) && !(m is ScreenMiddle) && !(
        m is ScreenBottom) && !(m is ScrollHalfDown) && !(m is ScrollHalfUp) && !(m is PageDown)
            && !(m is PageUp),
    ensures
        forall|seen: (usize, usize)| r == #[trigger] landing::<B>(vim@, buf.doc(), seen, m, count as int),
{
    proof {
        reveal(landing);
        buf.doc_wf();
        buf.doc().lemma_line_of(vim.cursor.offset as int);
    }
    let from = vim.cursor.offset;
    let line = buf.offset_to_line(from);
    match m {
        // h: count graphemes left, stopping at the line start
        Motion::Left => MotionResult::off(from, go_left(buf, from, count), MotionKind::Exclusive),
        // l: count graphemes right, never stepping onto the newline
        Motion::Right => MotionResult::off(from, go_right(buf, from, count), MotionKind::Exclusive),
        // j/k: keep the desired display column (`desired_col` memoizes
        // it across intermediate lines, like vim's wv_col)
        Motion::Up => go_vertical(vim, buf, count, false),
        Motion::Down => go_vertical(vim, buf, count, true),
        // 0: byte offset of the line start
        Motion::LineStart => MotionResult::new(buf.line_start(line), MotionKind::Exclusive),
        // ^: first non-blank char of the current line
        Motion::FirstNonBlank => MotionResult::new(
            buf.first_non_blank(line),
            MotionKind::Exclusive,
        ),
        Motion::LineEnd => MotionResult::new(end_of_line(buf, line), MotionKind::Inclusive),
        // g_: last NON-blank char of the count-th line
        Motion::LastLineNonBlank => MotionResult::new(
            end_of_text_on(buf, line_away(buf, line, count - 1, true)),
            MotionKind::Inclusive,
        ),
        // w / W: start of the next word run
        Motion::WordStart { big } => {
            let o = go_words_on(buf, from, big, count);
            let len = buf.len();
            MotionResult::new(
                if o <= len {
                    o
                } else {
                    len
                },
                MotionKind::Exclusive,
            )
        },
        // e / E: end of the current-or-next word run (inclusive)
        Motion::WordEnd { .. } => MotionResult::new(
            steps_of(buf, from, m, count),
            MotionKind::Inclusive,
        ),
        // ge / gE: end of the previous word run
        Motion::WordEndBack { .. } => MotionResult::off(
            from,
            steps_of(buf, from, m, count),
            MotionKind::Inclusive,
        ),
        // b / B, and } { ) (. Divergence from vim: only `.!?` single chars
        // end sentences here — no `...` or newline-follow rules.
        Motion::WordBack { .. }
        | Motion::ParaNext
        | Motion::ParaPrev
        | Motion::SentenceNext
        | Motion::SentencePrev => MotionResult::new(
            steps_of(buf, from, m, count),
            MotionKind::Exclusive,
        ),
        // f/t/F/T: reuse the last find's target char (for `;`/`,`).
        // The char for a FRESH find arrives as a char argument.
        Motion::FindChar { forward, till } => match vim.last_find {
            Some((c, _, _)) => find_from(buf, from, c, forward, till, count),
            None => MotionResult::stuck(from),
        },
        // ; / ,: repeat the last find, `,` mirroring its direction
        Motion::RepeatFind { reverse } => match vim.last_find {
            Some((c, forward, till)) => find_from(
                buf,
                from,
                c,
                if reverse {
                    !forward
                } else {
                    forward
                },
                till,
                count,
            ),
            None => MotionResult::stuck(from),
        },
        // %: jump to the bracket matching the one under the cursor
        Motion::MatchBracket => match match_bracket(buf, from) {
            Some(o) => MotionResult::new(o, MotionKind::Inclusive),
            None => MotionResult::stuck(from),
        },
        // {count}%: that far into the file
        Motion::FilePercent => if count > 100 {
            MotionResult::stuck(from)
        } else {
            MotionResult::new(buf.line_start(percent(buf, count)), MotionKind::Linewise)
        },
        // gg / G: an explicit count (`1G`, `2gg`) is the line number;
        // the bare forms go to first/last line. execute_command rewrites
        // an explicit `1G` to `first=true` before the count collapses.
        Motion::GoToLine { first } => go_to_line(buf, first, count),
        // '{char} / `{char}: the mark name arrives as a char argument
        Motion::MarkJump { linewise } => go_to_mark(vim, buf, linewise),
        // |: display column `count` (wide chars cover two cells)
        Motion::Column => MotionResult::new(
            offset_for_display_column(buf, line, count - 1),
            MotionKind::Exclusive,
        ),
        // + / -: adjacent line, first non-blank char
        Motion::LineDownFirstNonBlank => go_line(vim, buf, count, true),
        Motion::LineUpFirstNonBlank => go_line(vim, buf, count, false),
        _ => MotionResult::stuck(from),
    }
}

impl Motion {
    /// Compute the landing offset. Applies `count` where it makes sense
    /// (an absent count arrives as 1). Never moves the cursor — callers
    /// decide — but `SearchNext` may re-publish highlights as a side
    /// effect, so this takes `&mut VimState`.
    pub fn target<B: VimBufferMut, H: VimHost>(
        &self,
        vim: &mut VimState,
        ctx: &mut Ctx<B, H>,
        count: usize,
    ) -> (r: MotionResult)
        ensures
            *final(final(ctx).buf) == *final(old(ctx).buf),
            *final(final(ctx).host) == *final(old(ctx).host),
            hears(*final(ctx).host, final(vim)@.told, *old(ctx).host, old(vim)@.told),
            r == landing::<B>(
                old(vim)@,
                old(ctx).buf.doc(),
                old(ctx).env().seen,
                *self,
                max(count as int, 1),
            ),
            final(ctx).world(*final(vim)) == (World {
                vim: searched::<B>(
                    old(vim)@,
                    old(ctx).buf.doc(),
                    *self,
                    max(count as int, 1),
                ),
                ..old(ctx).world(*old(vim))
            }),
            final(ctx).env() == old(ctx).env(),
    {
        proof {
            reveal(searched);
        }
        let count: usize = if count >= 1 {
            count
        } else {
            1
        };
        match *self {
            Motion::SearchNext { forward } => {
                proof {
                    reveal(landing);
                }
                go_to_match(vim, ctx, forward, count)
            },
            Motion::StarSearch { forward } => {
                proof {
                    reveal(landing);
                }
                go_to_word(vim, ctx, forward)
            },
            // H / M / L: viewport-relative rows
            Motion::ScreenTop | Motion::ScreenMiddle | Motion::ScreenBottom => {
                proof {
                    reveal(landing);
                }
                let seen = ctx.host.viewport();
                let line = screen(&*ctx.buf, seen, *self, count);
                MotionResult::new(ctx.buf.line_start(line), MotionKind::Linewise)
            },
            Motion::ScrollHalfDown | Motion::PageDown => {
                proof {
                    reveal(landing);
                }
                let seen = ctx.host.viewport();
                go_scroll(vim, &*ctx.buf, seen, *self, true)
            },
            Motion::ScrollHalfUp | Motion::PageUp => {
                proof {
                    reveal(landing);
                }
                let seen = ctx.host.viewport();
                go_scroll(vim, &*ctx.buf, seen, *self, false)
            },
            _ => {
                let ghost seen = ctx.env().seen;
                let r = plain_target(vim, &*ctx.buf, *self, count);
                proof {
                    assert(r == landing::<B>(vim@, ctx.buf.doc(), seen, *self, count as int));
                }
                r
            },
        }
    }
}

} // verus!
