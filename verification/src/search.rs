//! Search: `/` `?` `n` `N` `*` `#`, incremental highlighting.
//!
//! Patterns use Rust `regex` syntax, which covers common vim "magic" patterns
//! (documented divergence: `\bsomething` style lookarounds follow RE2 rules).
use crate::buffer::{VimBuffer, VimBufferMut};
use crate::cells::{cells, char_len};
use crate::doc::Doc;
use crate::host::{env, hears, lemma_one_call, HostCall, VimHost};
use crate::state::{Ctx, Vim, VimState, World};
use crate::strs::{chars_of, copy_str};
use crate::word::{
    class_at, class_in, outside_run, scan, scan_back, lemma_scan_step, skip_run, start_of_run,
    Class,
};
use regex::RegexBuilder;
use std::ops::Range;
use vstd::prelude::*;

verus! {

pub struct SearchState {
    pub pattern: Option<String>,
    pub forward: bool,
    /// The match under the cursor for `n`/`N` stepping.
    pub last_matches: Vec<Range<usize>>,
    pub last_index: Option<usize>,
    /// Buffer edit generation `last_matches` was computed at. Every edit
    /// funnels through `VimState::edit_*` (or engine-driven undo/redo), which
    /// bumps the generation, so consecutive `n`/`N` keystrokes walk the
    /// cached list instead of re-scanning the buffer per keypress. An empty
    /// `last_matches` is never trusted from the cache: `:noh` empties it
    /// without an edit, and `n` must still jump (and re-arm highlights).
    /// `None` while there is no such list: nothing was searched for, or `:noh`
    /// cleared it.
    pub matches_generation: Option<u64>,
}

/// What a [`SearchState`] holds.
pub struct Search {
    pub pattern: Option<Seq<char>>,
    pub forward: bool,
    pub matches: Seq<(usize, usize)>,
    pub index: Option<usize>,
    pub generation: Option<u64>,
}

pub open spec fn pair_of(r: Range<usize>) -> (usize, usize) {
    (r.start, r.end)
}

pub open spec fn pairs(v: Seq<Range<usize>>) -> Seq<(usize, usize)> {
    v.map_values(|r: Range<usize>| pair_of(r))
}

impl View for SearchState {
    type V = Search;

    open spec fn view(&self) -> Search {
        Search {
            pattern: match self.pattern {
                Some(p) => Some(p@),
                None => None,
            },
            forward: self.forward,
            matches: pairs(self.last_matches@),
            index: self.last_index,
            generation: self.matches_generation,
        }
    }
}

/// No search yet.
pub open spec fn no_search() -> Search {
    Search { pattern: None, forward: true, matches: Seq::empty(), index: None, generation: None }
}

impl Default for SearchState {
    fn default() -> (s: Self)
        ensures
            s@ == no_search(),
    {
        let s = SearchState {
            pattern: None,
            forward: true,
            last_matches: Vec::new(),
            last_index: None,
            matches_generation: None,
        };
        proof {
            assert(s@.matches =~= Seq::<(usize, usize)>::empty());
        }
        s
    }
}

impl SearchState {
    fn forget_matches(&mut self)
        ensures
            final(self)@ == (Search {
                matches: Seq::empty(),
                index: None,
                generation: None,
                ..old(self)@
            }),
    {
        self.last_matches = Vec::new();
        self.matches_generation = None;
        self.last_index = None;
        proof {
            assert(pairs(self.last_matches@) =~= Seq::<(usize, usize)>::empty());
        }
    }

    fn renew_matches(&mut self, matches: Vec<Range<usize>>, generation: u64)
        ensures
            final(self)@ == (Search {
                matches: pairs(matches@),
                generation: Some(generation),
                ..old(self)@
            }),
    {
        self.last_matches = matches;
        self.matches_generation = Some(generation);
    }

    fn mark_match(&mut self, matches: Vec<Range<usize>>, index: Option<usize>)
        ensures
            final(self)@ == (Search { matches: pairs(matches@), index, ..old(self)@ }),
    {
        self.last_matches = matches;
        self.last_index = index;
    }
}

// ---- finding matches ---------------------------------------------------------------

/// A pattern and how it is to be read.
pub struct Query {
    pub pattern: String,
    pub ignore_case: bool,
    /// `^` and `$` match at every line.
    pub multi_line: bool,
}

/// The byte ranges of all matches of a pattern in a text, as `Regex::find_iter`
/// of the `regex` crate finds them; `None` when the pattern does not compile.
pub uninterp spec fn regex_matches(
    pattern: Seq<char>,
    ignore_case: bool,
    multi_line: bool,
    text: Seq<char>,
) -> Option<Seq<(usize, usize)>>;

/// Ranges within `len` bytes that follow one another and do not overlap.
pub open spec fn successive(v: Seq<(usize, usize)>, len: int) -> bool {
    &&& forall|i: int| 0 <= i < v.len() ==> (#[trigger] v[i]).0 <= v[i].1 <= len
    &&& forall|i: int, j: int|
        0 <= i < j < v.len() ==> (#[trigger] v[i]).1 <= (#[trigger] v[j]).0
}

/// All matches of `query` in `text`, by `RegexBuilder::build` and
/// `Regex::find_iter`: `None` exactly when the pattern does not build, else
/// the start and end of each match in the order in which they are found. The
/// matches are successive and do not overlap, and lie within the text.
#[verifier::external_body]
fn find_all(query: &Query, text: &str) -> (r: Option<Vec<(usize, usize)>>)
    ensures
        r matches Some(v) ==> successive(v@, cells(text@).len() as int),
        match r {
            Some(v) => regex_matches(query.pattern@, query.ignore_case, query.multi_line, text@)
                == Some(v@),
            None => regex_matches(query.pattern@, query.ignore_case, query.multi_line, text@)
                is None,
        },
{
    match RegexBuilder::new(query.pattern.as_str())
        .case_insensitive(query.ignore_case)
        .multi_line(query.multi_line)
        .build()
    {
        Ok(re) => Some(re.find_iter(text).map(|m| (m.start(), m.end())).collect()),
        Err(_) => None,
    }
}

/// What the matches of a pattern in a text are replaced by: for each match
/// its byte range and what the replacement expands to there.
pub struct Hit {
    pub start: usize,
    pub end: usize,
    pub text: String,
}

pub open spec fn hits_of(v: Seq<Hit>) -> Seq<(usize, usize, Seq<char>)> {
    v.map_values(|h: Hit| (h.start, h.end, h.text@))
}

/// The byte range of each match of a pattern in a text with what `replacement`
/// expands to there (`$1` is the first group), as `Regex::captures_iter` and
/// `Captures::expand` of the `regex` crate give them; `None` when the pattern
/// does not compile.
pub uninterp spec fn regex_expansions(
    pattern: Seq<char>,
    ignore_case: bool,
    multi_line: bool,
    text: Seq<char>,
    replacement: Seq<char>,
) -> Option<Seq<(usize, usize, Seq<char>)>>;

/// All matches of `query` in `text` with the expanded replacement, by
/// `RegexBuilder::build`, `Regex::captures_iter` and `Captures::expand`:
/// `None` exactly when the pattern does not build, else the start, end and
/// expansion of each match in the order in which they are found.
#[verifier::external_body]
pub(crate) fn expand_all(query: &Query, text: &str, replacement: &str) -> (r: Option<Vec<Hit>>)
    ensures
        match r {
            Some(v) => regex_expansions(
                query.pattern@,
                query.ignore_case,
                query.multi_line,
                text@,
                replacement@,
            ) == Some(hits_of(v@)),
            None => regex_expansions(
                query.pattern@,
                query.ignore_case,
                query.multi_line,
                text@,
                replacement@,
            ) is None,
        },
{
    let re = RegexBuilder::new(query.pattern.as_str())
        .case_insensitive(query.ignore_case)
        .multi_line(query.multi_line)
        .build()
        .ok()?;
    let hit = |c: regex::Captures| {
        let mut text = String::new();
        c.expand(replacement, &mut text);
        Hit { start: c.get_match().start(), end: c.get_match().end(), text }
    };
    Some(re.captures_iter(text).map(hit).collect())
}

/// The characters that have a meaning in a pattern.
pub open spec fn is_meta(c: char) -> bool {
    c == '\\' || c == '.' || c == '+' || c == '*' || c == '?' || c == '(' || c == ')' || c == '|'
        || c == '[' || c == ']' || c == '{' || c == '}' || c == '^' || c == '$' || c == '#'
        || c == '&' || c == '-' || c == '~'
}

/// A pattern that matches exactly `s`: a backslash before each character that
/// has a meaning.
pub open spec fn escaped(s: Seq<char>) -> Seq<char>
    decreases s.len(),
{
    if s.len() == 0 {
        Seq::empty()
    } else {
        let rest = escaped(s.drop_last());
        if is_meta(s.last()) {
            rest.push('\\').push(s.last())
        } else {
            rest.push(s.last())
        }
    }
}

/// A pattern that matches exactly `text`.
pub fn escape(text: &str) -> (s: String)
    ensures
        s@ == escaped(text@),
{
    let chars = chars_of(text);
    let mut s = String::new();
    let mut i: usize = 0;
    proof {
        assert(s@ =~= escaped(text@.take(0)));
    }
    while i < chars.len()
        invariant
            i <= chars.len(),
            chars@ == text@,
            s@ == escaped(text@.take(i as int)),
        decreases chars.len() - i,
    {
        let c = chars[i];
        proof {
            assert(text@.take(i + 1).drop_last() =~= text@.take(i as int));
        }
        if has_meaning(c) {
            s.push('\\');
        }
        s.push(c);
        i = i + 1;
    }
    proof {
        assert(text@.take(i as int) =~= text@);
    }
    s
}

fn has_meaning(c: char) -> (b: bool)
    ensures
        b == is_meta(c),
{
    match c {
        '\\' | '.' | '+' | '*' | '?' | '(' | ')' | '|' | '[' | ']' | '{' | '}' | '^' | '$' | '#'
        | '&' | '-' | '~' => true,
        _ => false,
    }
}

/// How `pattern` is to be searched for: across lines, in the case that the
/// options ask for.
pub fn compile(vim: &VimState, pattern: &str) -> (q: Query)
    ensures
        q.pattern@ == pattern@,
        q.ignore_case == vim@.options.ignores_case(pattern@),
        q.multi_line,
{
    Query {
        pattern: copy_str(pattern),
        ignore_case: vim.options.case_insensitive_for(pattern),
        multi_line: true,
    }
}

/// No list of matches is longer.
pub const MATCH_LIMIT: usize = 10_000;

/// The matches that count: those that are not empty, up to the limit.
#[verifier::opaque]
pub open spec fn usable(all: Seq<(usize, usize)>) -> Seq<(usize, usize)>
    decreases all.len(),
{
    if all.len() == 0 {
        Seq::empty()
    } else {
        let before = usable(all.drop_last());
        if all.last().0 != all.last().1 && before.len() < MATCH_LIMIT {
            before.push(all.last())
        } else {
            before
        }
    }
}

/// Keeps the matches that are not empty, with a limit guard on pathological
/// input.
pub fn usable_matches(all: &Vec<(usize, usize)>) -> (r: Vec<Range<usize>>)
    ensures
        pairs(r@) == usable(all@),
{
    let mut r: Vec<Range<usize>> = Vec::new();
    let mut i: usize = 0;
    proof {
        reveal(usable);
        assert(pairs(r@) =~= usable(all@.take(0)));
    }
    while i < all.len()
        invariant
            i <= all.len(),
            pairs(r@) == usable(all@.take(i as int)),
        decreases all.len() - i,
    {
        proof {
            reveal(usable);
            assert(all@.take(i + 1).drop_last() =~= all@.take(i as int));
            assert(pairs(r@).len() == r@.len());
        }
        let (start, end) = all[i];
        if start != end && r.len() < MATCH_LIMIT {
            let ghost before = pairs(r@);
            r.push(start..end);
            proof {
                assert(pairs(r@) =~= before.push((start, end)));
            }
        }
        i = i + 1;
    }
    proof {
        assert(all@.take(i as int) =~= all@);
    }
    r
}

/// The list of matches is bounded and holds no empty match.
pub proof fn matches_are_bounded(all: Seq<(usize, usize)>)
    ensures
        usable(all).len() <= MATCH_LIMIT,
        forall|i: int|
            0 <= i < usable(all).len() ==> (#[trigger] usable(all)[i]).0 != usable(all)[i].1,
    decreases all.len(),
{
    reveal(usable);
    if all.len() > 0 {
        matches_are_bounded(all.drop_last());
    }
}

proof fn lemma_usable_from(all: Seq<(usize, usize)>)
    ensures
        forall|i: int| 0 <= i < usable(all).len() ==> all.contains(#[trigger] usable(all)[i]),
    decreases all.len(),
{
    reveal(usable);
    if all.len() > 0 {
        let before = all.drop_last();
        lemma_usable_from(before);
        assert forall|i: int| 0 <= i < usable(all).len() implies all.contains(
            #[trigger] usable(all)[i],
        ) by {
            if i < usable(before).len() {
                let k = choose|k: int| 0 <= k < before.len() && before[k] == usable(before)[i];
                assert(all[k] == usable(all)[i]);
            } else {
                assert(all[all.len() - 1] == usable(all)[i]);
            }
        }
    }
}

/// The matches that count follow one another, do not overlap and lie within
/// the text, as all matches do.
pub proof fn matches_are_successive(all: Seq<(usize, usize)>, len: int)
    requires
        successive(all, len),
    ensures
        successive(usable(all), len),
    decreases all.len(),
{
    reveal(usable);
    if all.len() > 0 {
        let before = all.drop_last();
        matches_are_successive(before, len);
        lemma_usable_from(before);
        assert forall|i: int, j: int| 0 <= i < j < usable(all).len() implies (
        #[trigger] usable(all)[i]).1 <= (#[trigger] usable(all)[j]).0 by {
            if j == usable(before).len() {
                let k = choose|k: int| 0 <= k < before.len() && before[k] == usable(before)[i];
                assert(all[k] == usable(all)[i]);
                assert(all[all.len() - 1] == usable(all)[j]);
            }
        }
    }
}

impl Vim {
    /// The matches of `pattern` in the text `d`.
    #[verifier::opaque]
    pub open spec fn matches_in<B: VimBuffer>(self, d: Doc, pattern: Seq<char>) -> Seq<
        (usize, usize),
    > {
        match regex_matches(
            pattern,
            self.options.ignores_case(pattern),
            true,
            B::piece(d, 0, d.len()),
        ) {
            Some(all) => usable(all),
            None => Seq::empty(),
        }
    }
}

/// Find all matches of `pattern`, with a limit guard on pathological input.
pub fn all_matches<B: VimBuffer>(vim: &VimState, buf: &B, pattern: &str) -> (r: Vec<Range<usize>>)
    ensures
        pairs(r@) == vim@.matches_in::<B>(buf.doc(), pattern@),
        successive(pairs(r@), buf.doc().len()),
{
    proof {
        reveal(Vim::matches_in);
    }
    let query = compile(vim, pattern);
    // one whole-buffer slice and scan; for per-edit cost control on huge
    // files, hosts use set_hlsearch_live_update(false) + refresh_highlights
    let text = buf.slice(0..buf.len());
    match find_all(&query, text.as_str()) {
        Some(all) => {
            proof {
                buf.doc_wf();
                let d = buf.doc();
                B::piece_exact(d, 0, d.len());
                assert(d.cells.subrange(0, d.len()) =~= d.cells);
                crate::text::lemma_cells_of_chars(d.cells);
                matches_are_successive(all@, d.len());
            }
            usable_matches(&all)
        },
        None => {
            let r: Vec<Range<usize>> = Vec::new();
            proof {
                assert(pairs(r@) =~= Seq::<(usize, usize)>::empty());
            }
            r
        },
    }
}

// ---- patterns and highlights ---------------------------------------------------------

pub open spec fn opt_pair(r: Option<Range<usize>>) -> Option<(usize, usize)> {
    match r {
        Some(r) => Some(pair_of(r)),
        None => None,
    }
}

impl Vim {
    /// Searching for `pattern` from now on, its matches published.
    #[verifier::opaque]
    pub open spec fn with_pattern<B: VimBuffer>(
        self,
        d: Doc,
        pattern: Seq<char>,
        forward: bool,
    ) -> Vim {
        let matches = self.matches_in::<B>(d, pattern);
        Vim {
            search: Search {
                pattern: Some(pattern),
                forward,
                matches,
                index: None,
                generation: Some(self.edit_generation),
            },
            ..self
        }.say(
            HostCall::Highlights(
                if self.options.hlsearch {
                    matches
                } else {
                    Seq::empty()
                },
                None,
            ),
        )
    }

    /// The highlights gone, the pattern kept.
    pub open spec fn without_highlights(self) -> Vim {
        Vim {
            search: Search { matches: Seq::empty(), index: None, generation: None, ..self.search },
            ..self
        }.say(HostCall::Highlights(Seq::empty(), None))
    }
}

/// Record a pattern (from the command line or `*`) and publish highlights.
pub fn set_pattern<B: VimBufferMut, H: VimHost>(
    vim: &mut VimState,
    ctx: &mut Ctx<B, H>,
    pattern: String,
    forward: bool,
)
    ensures
        *final(final(ctx).buf) == *final(old(ctx).buf),
        *final(final(ctx).host) == *final(old(ctx).host),
        hears(*final(ctx).host, final(vim)@.told, *old(ctx).host, old(vim)@.told),
        final(ctx).world(*final(vim)) == (World {
            vim: old(vim)@.with_pattern::<B>(old(ctx).buf.doc(), pattern@, forward),
            ..old(ctx).world(*old(vim))
        }),
        final(ctx).env() == old(ctx).env(),
{
    set_pattern_inner(vim, ctx.buf, ctx.host, pattern, forward);
}

/// [`set_pattern`] with split borrows, for callers that already hold `buf`.
pub fn set_pattern_inner<B: VimBuffer, H: VimHost>(
    vim: &mut VimState,
    buf: &B,
    host: &mut H,
    pattern: String,
    forward: bool,
)
    ensures
        final(vim)@ == old(vim)@.with_pattern::<B>(buf.doc(), pattern@, forward),
        hears(*final(host), final(vim)@.told, *old(host), old(vim)@.told),
        env(*final(host)) == env(*old(host)),
{
    proof {
        reveal(Vim::with_pattern);
    }
    let matches = all_matches(vim, buf, pattern.as_str());
    if vim.options.hlsearch {
        vim.publish(host, &matches, None);
    } else {
        vim.clear_published(host);
    }
    vim.search = SearchState {
        pattern: Some(pattern),
        forward,
        last_matches: matches,
        last_index: None,
        matches_generation: Some(vim.edit_generation),
    };
}

impl VimState {
    /// Tells the host what is highlighted.
    pub(crate) fn publish<H: VimHost>(
        &mut self,
        host: &mut H,
        matches: &Vec<Range<usize>>,
        current: Option<Range<usize>>,
    )
        ensures
            final(self)@ == old(self)@.say(
                HostCall::Highlights(pairs(matches@), opt_pair(current)),
            ),
            hears(*final(host), final(self)@.told, *old(host), old(self)@.told),
            env(*final(host)) == env(*old(host)),
    {
        let ghost call = HostCall::Highlights(pairs(matches@), opt_pair(current));
        host.set_search_highlights(matches.as_slice(), current);
        proof {
            self.told@ = self.told@.push(call);
            lemma_one_call(*host, *old(host), old(self)@.told, call);
        }
    }

    /// Tells the host that nothing is highlighted.
    pub(crate) fn clear_published<H: VimHost>(&mut self, host: &mut H)
        ensures
            final(self)@ == old(self)@.say(HostCall::Highlights(Seq::empty(), None)),
            hears(*final(host), final(self)@.told, *old(host), old(self)@.told),
            env(*final(host)) == env(*old(host)),
    {
        let nothing: Vec<Range<usize>> = Vec::new();
        host.set_search_highlights(nothing.as_slice(), None);
        proof {
            let call = HostCall::Highlights(Seq::empty(), None);
            assert(pairs(nothing@) =~= Seq::empty());
            self.told@ = self.told@.push(call);
            lemma_one_call(*host, *old(host), old(self)@.told, call);
        }
    }
}

/// Clear highlights (`:noh`).
pub fn clear_highlights<B: VimBufferMut, H: VimHost>(vim: &mut VimState, ctx: &mut Ctx<B, H>)
    ensures
        *final(final(ctx).buf) == *final(old(ctx).buf),
        *final(final(ctx).host) == *final(old(ctx).host),
        hears(*final(ctx).host, final(vim)@.told, *old(ctx).host, old(vim)@.told),
        final(ctx).world(*final(vim)) == (World {
            vim: old(vim)@.without_highlights(),
            ..old(ctx).world(*old(vim))
        }),
        final(ctx).env() == old(ctx).env(),
{
    vim.search.forget_matches();
    vim.clear_published(ctx.host);
}

// ---- jumping to a match --------------------------------------------------------------

/// The first match, from the `i`-th on, that starts behind `o`; the number of
/// matches without one.
pub open spec fn first_behind(matches: Seq<(usize, usize)>, i: int, o: int) -> int
    decreases matches.len() - i,
{
    if i < 0 || i >= matches.len() || matches[i].0 > o {
        i
    } else {
        first_behind(matches, i + 1, o)
    }
}

/// The last of the first `n` matches that starts before `o`; -1 without one.
pub open spec fn last_before(matches: Seq<(usize, usize)>, n: int, o: int) -> int
    decreases n,
{
    if n <= 0 || n > matches.len() {
        -1
    } else if matches[n - 1].0 < o {
        n - 1
    } else {
        last_before(matches, n - 1, o)
    }
}

/// The `count`-th next or previous match from `o`, around the text's ends.
#[verifier::opaque]
pub open spec fn match_from(matches: Seq<(usize, usize)>, o: int, forward: bool, count: int) -> int {
    let n = matches.len() as int;
    let further = (if count > 1 {
        count - 1
    } else {
        0
    }) % n;
    if forward {
        let behind = first_behind(matches, 0, o);
        let first = if behind < n {
            behind
        } else {
            0
        };
        if first + further < n {
            first + further
        } else {
            first + further - n
        }
    } else {
        let before = last_before(matches, n, o);
        let first = if before >= 0 {
            before
        } else {
            n - 1
        };
        if first >= further {
            first - further
        } else {
            first - further + n
        }
    }
}

/// The index of the match that `n` (`forward`) or `N` goes to from `cursor`.
pub fn pick_match(matches: &Vec<Range<usize>>, cursor: usize, forward: bool, count: usize) -> (r:
    Option<usize>)
    ensures
        match r {
            Some(i) => i < matches.len() && i == match_from(
                pairs(matches@),
                cursor as int,
                forward,
                count as int,
            ),
            None => matches.len() == 0,
        },
{
    let n = matches.len();
    if n == 0 {
        return None;
    }
    let ghost all = pairs(matches@);
    let rest: usize = if count > 1 {
        count - 1
    } else {
        0
    };
    let further: usize = rest % n;
    proof {
        reveal(match_from);
    }
    if forward {
        let mut i: usize = 0;
        while i < n && matches[i].start <= cursor
            invariant
                i <= n,
                n == matches.len(),
                all == pairs(matches@),
                first_behind(all, i as int, cursor as int) == first_behind(all, 0, cursor as int),
            decreases n - i,
        {
            proof {
                assert(all[i as int] == pair_of(matches@[i as int]));
            }
            i = i + 1;
        }
        proof {
            if i < n {
                assert(all[i as int] == pair_of(matches@[i as int]));
            }
        }
        let first: usize = if i < n {
            i
        } else {
            0
        };
        if first < n - further {
            Some(first + further)
        } else {
            Some(first - (n - further))
        }
    } else {
        let mut k: usize = n;
        while k > 0 && matches[k - 1].start >= cursor
            invariant
                k <= n,
                n == matches.len(),
                all == pairs(matches@),
                last_before(all, k as int, cursor as int) == last_before(
                    all,
                    n as int,
                    cursor as int,
                ),
            decreases k,
        {
            proof {
                assert(all[k - 1] == pair_of(matches@[k - 1]));
            }
            k = k - 1;
        }
        proof {
            if k > 0 {
                assert(all[k - 1] == pair_of(matches@[k - 1]));
            }
        }
        let first: usize = if k > 0 {
            k - 1
        } else {
            n - 1
        };
        if first >= further {
            Some(first - further)
        } else {
            Some(n - (further - first))
        }
    }
}

proof fn lemma_first_behind(matches: Seq<(usize, usize)>, i: int, k: int)
    requires
        0 <= i <= k + 1 <= matches.len(),
        forall|a: int, b: int| 0 <= a < b < matches.len() ==> matches[a].0 < matches[b].0,
        0 <= k < matches.len(),
    ensures
        first_behind(matches, i, matches[k].0 as int) == k + 1,
    decreases k + 1 - i,
{
    if i <= k {
        lemma_first_behind(matches, i + 1, k);
    }
}

proof fn lemma_last_before(matches: Seq<(usize, usize)>, n: int, k: int)
    requires
        0 <= k <= n <= matches.len(),
        k < matches.len(),
        forall|a: int, b: int| 0 <= a < b < matches.len() ==> matches[a].0 < matches[b].0,
    ensures
        last_before(matches, n, matches[k].0 as int) == k - 1,
    decreases n,
{
    if n > k {
        lemma_last_before(matches, n - 1, k);
    }
}

/// From a match, `n` goes to the next one and `N` to the one before, around
/// the ends of the text, so that each takes the other back.
pub proof fn next_and_previous_are_inverse(matches: Seq<(usize, usize)>, k: int)
    requires
        0 <= k < matches.len(),
        forall|a: int, b: int| 0 <= a < b < matches.len() ==> matches[a].0 < matches[b].0,
    ensures
        ({
            let next = match_from(matches, matches[k].0 as int, true, 1);
            let previous = match_from(matches, matches[k].0 as int, false, 1);
            &&& next == if k + 1 < matches.len() { k + 1 } else { 0 }
            &&& previous == if k > 0 { k - 1 } else { matches.len() - 1 }
            &&& match_from(matches, matches[next].0 as int, false, 1) == k
            &&& match_from(matches, matches[previous].0 as int, true, 1) == k
        }),
{
    reveal(match_from);
    let n = matches.len() as int;
    assert forall|j: int| 0 <= j < n implies first_behind(matches, 0, #[trigger] matches[j].0 as int)
        == j + 1 && last_before(matches, n, matches[j].0 as int) == j - 1 by {
        lemma_first_behind(matches, 0, j);
        lemma_last_before(matches, n, j);
    }
    assert(0int % n == 0) by {
        vstd::arithmetic::div_mod::lemma_small_mod(0, n as nat);
    }
    let next = if k + 1 < n {
        k + 1
    } else {
        0
    };
    let previous = if k > 0 {
        k - 1
    } else {
        n - 1
    };
    assert(matches[next].0 >= 0 && matches[previous].0 >= 0);
}

impl Vim {
    /// The matches of the pattern in the text as it is now. A list that was
    /// made since the last edit is kept, unless it is empty.
    #[verifier::opaque]
    pub open spec fn with_fresh_matches<B: VimBuffer>(self, d: Doc) -> Vim {
        match self.search.pattern {
            Some(pattern) => if self.search.generation != Some(self.edit_generation)
                || self.search.matches.len() == 0 {
                Vim {
                    search: Search {
                        matches: self.matches_in::<B>(d, pattern),
                        generation: Some(self.edit_generation),
                        ..self.search
                    },
                    ..self
                }
            } else {
                self
            },
            None => self,
        }
    }

    /// The match to go to among those at hand.
    pub open spec fn next_match(self, forward: bool, count: int) -> Option<(usize, usize)> {
        if self.search.pattern is None || self.search.matches.len() == 0 {
            None
        } else {
            Some(
                self.search.matches[match_from(
                    self.search.matches,
                    self.cursor.offset as int,
                    forward,
                    count,
                )],
            )
        }
    }
}

/// `n` / `N`: move to the next match in `forward` direction (already flipped
/// by the caller for `N`). Also used after `*`.
pub fn jump_to_match<B: VimBuffer>(vim: &mut VimState, buf: &B, forward: bool, count: usize) -> (r:
    Option<usize>)
    ensures
        final(vim)@ == old(vim)@.with_fresh_matches::<B>(buf.doc()),
        match final(vim)@.next_match(forward, count as int) {
            Some(m) => r == Some(m.0),
            None => r is None,
        },
        final(vim)@.told == old(vim)@.told,
{
    proof {
        reveal(Vim::with_fresh_matches);
    }
    // The full-buffer scan runs only when the text changed since the matches
    // were computed; a run of `n`/`N` keystrokes walks the cached list, which
    // keeps per-keypress cost O(1) instead of O(buffer) on large files.
    let fresh = match vim.search.matches_generation {
        Some(generation) => generation == vim.edit_generation,
        None => false,
    };
    let matches = match &vim.search.pattern {
        Some(pattern) => if !fresh || vim.search.last_matches.len() == 0 {
            Some(all_matches(vim, buf, pattern.as_str()))
        } else {
            None
        },
        None => {
            return None;
        },
    };
    if let Some(matches) = matches {
        let generation = vim.edit_generation;
        vim.search.renew_matches(matches, generation);
    }
    match pick_match(&vim.search.last_matches, vim.cursor.offset, forward, count) {
        Some(i) => {
            proof {
                assert(vim@.search.matches[i as int] == pair_of(vim.search.last_matches@[i as int]));
            }
            Some(vim.search.last_matches[i].start)
        },
        None => None,
    }
}

// ---- the word under the cursor -----------------------------------------------------

pub open spec fn at_word(d: Doc, to: int) -> spec_fn(int) -> bool {
    |p: int| p >= to || class_in(d, p, false) == Some(Class::Word)
}

/// The word that the character at `o` belongs to, or else the next word on the
/// line.
pub open spec fn word_near(d: Doc, o: int) -> Option<(int, int)> {
    let outside = outside_run(d, false, Class::Word);
    if class_in(d, o, false) == Some(Class::Word) {
        Some((scan_back(d, o, outside), scan(d, o, outside)))
    } else {
        let to = d.line_end(d.line_of(o));
        let next = scan(d, o, at_word(d, to));
        if next < to && class_in(d, next, false) == Some(Class::Word) {
            Some((next, scan(d, next, outside)))
        } else {
            None
        }
    }
}

/// Word bounds around `offset`: the run of word chars containing it, or the
/// next one on the line.
pub fn word_bounds_at<B: VimBuffer>(buf: &B, offset: usize) -> (r: Option<(usize, usize)>)
    ensures
        match word_near(buf.doc(), offset as int) {
            Some((start, end)) => r matches Some((a, b)) && a == start && b == end,
            None => r is None,
        },
{
    let ghost d = buf.doc();
    proof {
        buf.doc_wf();
        d.lemma_char_fits(offset as int);
    }
    if class_at(buf, offset, false) == Some(Class::Word) {
        let start = start_of_run(buf, offset, false, Class::Word);
        let end = skip_run(buf, offset, false, Class::Word);
        return Some((start, end));
    }
    let to = buf.line_end(buf.offset_to_line(offset));
    let ghost stop = at_word(d, to as int);
    let mut o: usize = offset;
    loop
        invariant
            d == buf.doc(),
            d.wf(),
            stop == at_word(d, to as int),
            scan(d, o as int, stop) == scan(d, offset as int, stop),
        ensures
            o == scan(d, offset as int, stop),
        decreases d.len() - o,
    {
        if o >= to || class_at(buf, o, false) == Some(Class::Word) {
            break;
        }
        proof {
            d.lemma_char_fits(o as int);
        }
        match buf.char_at(o) {
            Some(c) => {
                proof {
                    lemma_scan_step(d, o as int, stop);
                }
                o = o + char_len(c);
            },
            None => {
                break;
            },
        }
    }
    if o < to && class_at(buf, o, false) == Some(Class::Word) {
        proof {
            d.lemma_char_fits(o as int);
        }
        Some((o, skip_run(buf, o, false, Class::Word)))
    } else {
        None
    }
}

/// A pattern for `word` as a whole word.
pub open spec fn whole_word(word: Seq<char>) -> Seq<char> {
    seq!['\\', 'b'] + escaped(word) + seq!['\\', 'b']
}

impl Vim {
    /// Searching for the word near the cursor from now on; nothing changes
    /// when there is none.
    #[verifier::opaque]
    pub open spec fn with_word_pattern<B: VimBuffer>(self, d: Doc, forward: bool) -> Vim {
        match word_near(d, self.cursor.offset as int) {
            Some((start, end)) => self.with_pattern::<B>(
                d,
                whole_word(B::piece(d, start, end)),
                forward,
            ),
            None => self,
        }
    }
}

/// `*` / `#`: build a whole-word pattern from the word under the cursor and
/// search for it.
pub fn search_word_under_cursor<B: VimBuffer, H: VimHost>(
    vim: &mut VimState,
    buf: &B,
    host: &mut H,
    forward: bool,
)
    ensures
        final(vim)@ == old(vim)@.with_word_pattern::<B>(buf.doc(), forward),
        hears(*final(host), final(vim)@.told, *old(host), old(vim)@.told),
        env(*final(host)) == env(*old(host)),
{
    proof {
        reveal(Vim::with_word_pattern);
    }
    let offset = vim.cursor.offset;
    let (start, end) = match word_bounds_at(buf, offset) {
        Some(bounds) => bounds,
        None => {
            return;
        },
    };
    let literal = buf.slice(start..end);
    let word = escape(literal.as_str());
    let mut pattern = String::new();
    pattern.push('\\');
    pattern.push('b');
    pattern.push_str(word.as_str());
    pattern.push('\\');
    pattern.push('b');
    proof {
        assert(pattern@ =~= whole_word(literal@));
    }
    set_pattern_inner(vim, buf, host, pattern, forward);
}

// ---- publishing ------------------------------------------------------------------------

impl Vim {
    /// The matches of what is typed so far, shown while typing.
    #[verifier::opaque]
    pub open spec fn with_incsearch<B: VimBuffer>(self, d: Doc, pattern: Seq<char>) -> Vim {
        if self.options.incsearch {
            let matches = self.matches_in::<B>(d, pattern);
            self.say(
                HostCall::Highlights(
                    matches,
                    if matches.len() > 0 {
                        Some(matches[0])
                    } else {
                        None
                    },
                ),
            )
        } else {
            self
        }
    }
}

/// Publish incremental highlights while the user types in the command line.
pub fn publish_incsearch<B: VimBufferMut, H: VimHost>(
    vim: &mut VimState,
    ctx: &mut Ctx<B, H>,
    pattern: &str,
)
    ensures
        *final(final(ctx).buf) == *final(old(ctx).buf),
        *final(final(ctx).host) == *final(old(ctx).host),
        hears(*final(ctx).host, final(vim)@.told, *old(ctx).host, old(vim)@.told),
        final(ctx).world(*final(vim)) == (World {
            vim: old(vim)@.with_incsearch::<B>(old(ctx).buf.doc(), pattern@),
            ..old(ctx).world(*old(vim))
        }),
        final(ctx).env() == old(ctx).env(),
{
    proof {
        reveal(Vim::with_incsearch);
    }
    if !vim.options.incsearch {
        return;
    }
    let matches = all_matches(vim, &*ctx.buf, pattern);
    if matches.len() > 0 {
        proof {
            assert(pairs(matches@)[0] == pair_of(matches@[0]));
        }
        let first = matches[0].start..matches[0].end;
        vim.publish(ctx.host, &matches, Some(first));
    } else {
        vim.publish(ctx.host, &matches, None);
    }
}

/// The first match, from the `i`-th on, that starts at or behind `o`; the
/// number of matches without one.
pub open spec fn first_at(matches: Seq<(usize, usize)>, i: int, o: int) -> int
    decreases matches.len() - i,
{
    if i < 0 || i >= matches.len() || matches[i].0 >= o {
        i
    } else {
        first_at(matches, i + 1, o)
    }
}

/// The match to mark when the cursor is at `o`: the next one, else the last.
#[verifier::opaque]
pub open spec fn current_match(matches: Seq<(usize, usize)>, o: int) -> int {
    if first_at(matches, 0, o) < matches.len() {
        first_at(matches, 0, o)
    } else {
        matches.len() - 1
    }
}

fn current_index(matches: &Vec<Range<usize>>, cursor: usize) -> (index: usize)
    requires
        matches.len() > 0,
    ensures
        index < matches.len(),
        index == current_match(pairs(matches@), cursor as int),
{
    let ghost all = pairs(matches@);
    proof {
        reveal(current_match);
    }
    let mut i: usize = 0;
    while i < matches.len() && matches[i].start < cursor
        invariant
            i <= matches.len(),
            all == pairs(matches@),
            first_at(all, i as int, cursor as int) == first_at(all, 0, cursor as int),
        decreases matches.len() - i,
    {
        proof {
            assert(all[i as int] == pair_of(matches@[i as int]));
        }
        i = i + 1;
    }
    if i < matches.len() {
        proof {
            assert(all[i as int] == pair_of(matches@[i as int]));
        }
        i
    } else {
        matches.len() - 1
    }
}

impl Vim {
    /// The highlights follow every edit, unless the host updates them itself.
    #[verifier::opaque]
    pub open spec fn republished<B: VimBuffer>(self, d: Doc) -> Vim {
        if self.hlsearch_live_update {
            self.with_current_highlights::<B>(d)
        } else {
            self
        }
    }

    /// A new list of matches, published with the one to mark.
    #[verifier::opaque]
    pub open spec fn with_matches(self, matches: Seq<(usize, usize)>) -> Vim {
        if matches.len() == 0 {
            Vim {
                search: Search { matches: Seq::empty(), index: None, ..self.search },
                ..self
            }.say(HostCall::Highlights(Seq::empty(), None))
        } else {
            let i = current_match(matches, self.cursor.offset as int);
            Vim {
                search: Search { matches, index: Some(i as usize), ..self.search },
                ..self
            }.say(HostCall::Highlights(matches, Some(matches[i])))
        }
    }

    /// The published highlights brought up to date with the text, if there
    /// are any to publish: what was cleared stays cleared.
    #[verifier::opaque]
    pub open spec fn with_current_highlights<B: VimBuffer>(self, d: Doc) -> Vim {
        if !self.options.hlsearch || self.search.generation is None {
            self
        } else {
            match self.search.pattern {
                Some(pattern) => self.with_matches(self.matches_in::<B>(d, pattern)),
                None => self,
            }
        }
    }
}

/// Editing does not revive highlights that were cleared: the host hears nothing
/// of them until the next search.
pub proof fn cleared_highlights_stay_cleared<B: VimBuffer>(v: Vim, edited: Vim, d: Doc)
    requires
        edited.search == v.without_highlights().search,
    ensures
        edited.republished::<B>(d) == edited,
        edited.with_current_highlights::<B>(d) == edited,
{
    reveal(Vim::republished);
    reveal(Vim::with_current_highlights);
}

/// Highlights that an edit left without a match come back with the next edit
/// that brings one.
pub proof fn emptied_highlights_come_back<B: VimBuffer>(v: Vim, before: Doc, after: Doc)
    requires
        v.hlsearch_live_update,
        v.options.hlsearch,
        v.search.generation is Some,
        v.search.pattern is Some,
    ensures
        v.republished::<B>(before).republished::<B>(after).search.matches == v.matches_in::<B>(
            after,
            v.search.pattern->0,
        ),
{
    reveal(Vim::republished);
    reveal(Vim::with_current_highlights);
    reveal(Vim::with_matches);
    reveal(Vim::matches_in);
    assert(v.matches_in::<B>(after, v.search.pattern->0).len() == 0 ==> v.matches_in::<B>(
        after,
        v.search.pattern->0,
    ) =~= Seq::empty());
}

impl VimState {
    /// Buffer edits shift the byte offsets behind any published highlights;
    /// recompute and republish so `hlsearch` visuals follow the text. No-op
    /// while nothing is published (`:noh`, no pattern) — editing must not
    /// revive cleared highlights.
    pub(crate) fn republish_search<B: VimBufferMut, H: VimHost>(&mut self, ctx: &mut Ctx<B, H>)
        ensures
            *final(final(ctx).buf) == *final(old(ctx).buf),
            *final(final(ctx).host) == *final(old(ctx).host),
            hears(*final(ctx).host, final(self)@.told, *old(ctx).host, old(self)@.told),
            final(ctx).world(*final(self)) == (World {
                vim: old(self)@.republished::<B>(old(ctx).buf.doc()),
                ..old(ctx).world(*old(self))
            }),
            final(ctx).env() == old(ctx).env(),
    {
    proof {
        reveal(Vim::republished);
    }
        // hosts embedding the engine in huge-file editors can turn this off
        // (set_hlsearch_live_update(false)) and call refresh_highlights on
        // their own schedule (e.g. 150ms after the last edit)
        if self.hlsearch_live_update {
            self.refresh_highlights(ctx);
        }
    }

    /// Re-run the highlight scan and publish to the host (for hosts that
    /// disabled [`VimState::set_hlsearch_live_update`]).
    pub fn refresh_highlights<B: VimBufferMut, H: VimHost>(&mut self, ctx: &mut Ctx<B, H>)
        ensures
            *final(final(ctx).buf) == *final(old(ctx).buf),
            *final(final(ctx).host) == *final(old(ctx).host),
            hears(*final(ctx).host, final(self)@.told, *old(ctx).host, old(self)@.told),
            final(ctx).world(*final(self)) == (World {
                vim: old(self)@.with_current_highlights::<B>(old(ctx).buf.doc()),
                ..old(ctx).world(*old(self))
            }),
            final(ctx).env() == old(ctx).env(),
    {
    proof {
        reveal(Vim::with_current_highlights);
    }
        if !self.options.hlsearch || self.search.matches_generation.is_none() {
            return;
        }
        // an empty last_matches cache must NOT early-return here — after a
        // deletion removes the last match, later edits have to re-scan to
        // notice the pattern matching again; a list that was cleared has no
        // generation
        let pattern = match &self.search.pattern {
            Some(pattern) => pattern.clone(),
            None => {
                return;
            },
        };
        let matches = all_matches(self, &*ctx.buf, pattern.as_str());
        self.publish_matches(ctx.host, matches);
    }

    fn publish_matches<H: VimHost>(&mut self, host: &mut H, matches: Vec<Range<usize>>)
        ensures
            final(self)@ == old(self)@.with_matches(pairs(matches@)),
            hears(*final(host), final(self)@.told, *old(host), old(self)@.told),
            env(*final(host)) == env(*old(host)),
    {
    proof {
        reveal(Vim::with_matches);
    }
        let ghost all = pairs(matches@);
        if matches.len() == 0 {
            self.search.mark_match(matches, None);
            proof {
                assert(all =~= Seq::<(usize, usize)>::empty());
            }
            self.clear_published(host);
            return;
        }
        let index = current_index(&matches, self.cursor.offset);
        proof {
            assert(all[index as int] == pair_of(matches@[index as int]));
        }
        let current = matches[index].start..matches[index].end;
        self.publish(host, &matches, Some(current));
        self.search.mark_match(matches, Some(index));
    }
}

/// A copy of a list of matches.
pub(crate) fn copy_ranges(v: &Vec<Range<usize>>) -> (r: Vec<Range<usize>>)
    ensures
        pairs(r@) == pairs(v@),
{
    let mut r: Vec<Range<usize>> = Vec::new();
    let mut i: usize = 0;
    while i < v.len()
        invariant
            i <= v.len(),
            pairs(r@) == pairs(v@).take(i as int),
        decreases v.len() - i,
    {
        let ghost before = pairs(r@);
        r.push(v[i].start..v[i].end);
        proof {
            assert(pairs(r@) =~= before.push(pair_of(v@[i as int])));
            assert(pairs(v@).take(i + 1) =~= before.push(pair_of(v@[i as int])));
        }
        i = i + 1;
    }
    proof {
        assert(pairs(v@).take(i as int) =~= pairs(v@));
    }
    r
}

} // verus!
