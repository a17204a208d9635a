//! Ex commands: what stands behind the `:` prompt.
//!
//! `:N` and ranges (`%`, numbers, `.`, `$`, marks), `:s/pat/rep/[giI]`, `:d`,
//! `:w`, `:q[!]`, `:wq`, `:x`, `:noh[lsearch]`, `:set` and `:action`.
//!
//! The replacement of `:s` is expanded by the `regex` crate: groups are
//! written `$1`, not `\1`.
use crate::buffer::{VimBuffer, VimBufferMut};
use crate::config::{choice_of, read_setting};
use crate::doc::{max, min, Doc};
use crate::edits::delete_span;
use crate::host::{hears, HostCall, VimHost};
use crate::ops::{line_span, lines_span};
use crate::search::{expand_all, hits_of, regex_expansions, Hit, Query};
use crate::shift::plus;
use crate::state::{Ctx, Vim, VimState, World};
use crate::strs::{
    char_is_digit, chars_of, copy_str, decimal, digit_value, digits_value, has_prefix, is_digit,
    push_decimal, same_str, split_words, starts_with, string_of, sub_chars, texts, trim_chars,
    trimmed, words,
};
use vstd::prelude::*;

verus! {

// ---- ranges ------------------------------------------------------------------------------------

/// The digits at the front of a text.
pub open spec fn digit_run(s: Seq<char>) -> int
    decreases s.len(),
{
    if s.len() > 0 && is_digit(s[0]) {
        1 + digit_run(s.drop_first())
    } else {
        0
    }
}

/// What an address stands for.
pub enum Spot {
    /// There is no address.
    Absent,
    /// A mark that is not set.
    Unset,
    /// A line, and the length of the address.
    Line(int, int),
}

impl World {
    /// The line of a mark. The end of a selection lies behind its last
    /// character.
    pub open spec fn mark_line(self, name: char) -> Option<int> {
        match self.vim.marks.resolved(name) {
            Some(o) => {
                let at = if name == '>' {
                    max(o - 1, 0)
                } else {
                    o as int
                };
                Some(self.doc.line_of(min(at, self.doc.len())))
            },
            None => None,
        }
    }

    /// The address at the front of a text.
    #[verifier::opaque]
    pub open spec fn address(self, s: Seq<char>) -> Spot {
        let last = self.doc.line_count() - 1;
        if s.len() == 0 {
            Spot::Absent
        } else if s[0] == '.' {
            Spot::Line(self.line(), 1)
        } else if s[0] == '$' {
            Spot::Line(last, 1)
        } else if is_digit(s[0]) {
            let n = digit_run(s);
            Spot::Line(min(max(digits_value(s.take(n)) - 1, 0), last), n)
        } else if s[0] == '\'' && s.len() >= 2 {
            match self.mark_line(s[1]) {
                Some(line) => Spot::Line(line, 2),
                None => Spot::Unset,
            }
        } else {
            Spot::Absent
        }
    }
}

/// The lines that a command is for.
pub struct Lines {
    pub first: int,
    pub last: int,
    /// They were given, else they are the cursor's line.
    pub given: bool,
    /// The length of the range.
    pub used: int,
}

pub open spec fn between(a: int, b: int, used: int) -> Lines {
    Lines { first: min(a, b), last: max(a, b), given: true, used }
}

impl World {
    /// The range at the front of a command; nothing when it names a mark that
    /// is not set.
    #[verifier::opaque]
    pub open spec fn range(self, s: Seq<char>) -> Option<Lines> {
        let here = self.line();
        if s.len() > 0 && s[0] == '%' {
            Some(between(0, self.doc.line_count() - 1, 1))
        } else {
            match self.address(s) {
                Spot::Absent => Some(Lines { first: here, last: here, given: false, used: 0 }),
                Spot::Unset => None,
                Spot::Line(a, n) => if n < s.len() && s[n] == ',' {
                    match self.address(s.skip(n + 1)) {
                        Spot::Absent => Some(between(a, here, n + 1)),
                        Spot::Unset => None,
                        Spot::Line(b, m) => Some(between(a, b, n + 1 + m)),
                    }
                } else {
                    Some(between(a, a, n))
                },
            }
        }
    }
}

/// The digits from `from` on and the number that they spell, as far as a
/// `usize` goes.
fn read_digits(v: &Vec<char>, from: usize) -> (r: (usize, usize))
    requires
        from <= v.len(),
    ensures
        r.0 == digit_run(v@.skip(from as int)),
        r.1 == min(digits_value(v@.skip(from as int).take(r.0 as int)), usize::MAX as int),
        from + r.0 <= v.len(),
{
    let ghost s = v@.skip(from as int);
    let mut i: usize = from;
    let mut n: usize = 0;
    proof {
        assert(s.take(0) =~= Seq::empty());
    }
    while i < v.len() && char_is_digit(v[i])
        invariant
            from <= i <= v.len(),
            s == v@.skip(from as int),
            digit_run(s) == i - from + digit_run(v@.skip(i as int)),
            digits_value(s.take(i - from)) >= 0,
            n == min(digits_value(s.take(i - from)), usize::MAX as int),
        decreases v.len() - i,
    {
        proof {
            assert(v@.skip(i as int).drop_first() =~= v@.skip(i + 1));
            assert(v@.skip(i as int)[0] == v@[i as int]);
            assert(s.take(i + 1 - from).drop_last() =~= s.take(i - from));
            assert(s.take(i + 1 - from).last() == v@[i as int]);
        }
        let d = digit_value(v[i]);
        n = if n > (usize::MAX - d) / 10 {
            usize::MAX
        } else {
            n * 10 + d
        };
        i = i + 1;
    }
    proof {
        if i < v.len() {
            assert(v@.skip(i as int)[0] == v@[i as int]);
        }
        assert(digit_run(v@.skip(i as int)) == 0);
    }
    (i - from, n)
}

/// An address read from a text.
enum Address {
    Absent,
    Unset,
    Line(usize, usize),
}

impl Address {
    spec fn is(self, s: Spot) -> bool {
        match self {
            Address::Absent => s is Absent,
            Address::Unset => s is Unset,
            Address::Line(line, n) => s == Spot::Line(line as int, n as int),
        }
    }
}

impl VimState {
    fn mark_line<B: VimBufferMut, H: VimHost>(&self, ctx: &Ctx<B, H>, name: char) -> (r: Option<
        usize,
    >)
        ensures
            match r {
                Some(line) => ctx.world(*self).mark_line(name) == Some(line as int),
                None => ctx.world(*self).mark_line(name) is None,
            },
    {
        match self.marks.resolve(name) {
            Some(o) => {
                let at: usize = if name == '>' && o >= 1 {
                    o - 1
                } else {
                    o
                };
                let len = ctx.buf.len();
                Some(
                    ctx.buf.offset_to_line(
                        if at <= len {
                            at
                        } else {
                            len
                        },
                    ),
                )
            },
            None => None,
        }
    }

    fn read_address<B: VimBufferMut, H: VimHost>(
        &self,
        ctx: &Ctx<B, H>,
        v: &Vec<char>,
        from: usize,
    ) -> (r: Address)
        requires
            from <= v.len(),
        ensures
            r.is(ctx.world(*self).address(v@.skip(from as int))),
            r matches Address::Line(line, n) ==> from + n <= v.len(),
    {
        proof {
            reveal(World::address);
            ctx.buf.doc_wf();
        }
        let ghost s = v@.skip(from as int);
        if from >= v.len() {
            return Address::Absent;
        }
        proof {
            assert(s[0] == v@[from as int]);
        }
        let last = ctx.buf.line_count() - 1;
        if v[from] == '.' {
            Address::Line(ctx.buf.offset_to_line(self.cursor.offset), 1)
        } else if v[from] == '$' {
            Address::Line(last, 1)
        } else if char_is_digit(v[from]) {
            let (n, value) = read_digits(v, from);
            let line: usize = if value >= 1 {
                value - 1
            } else {
                0
            };
            Address::Line(
                if line <= last {
                    line
                } else {
                    last
                },
                n,
            )
        } else if v[from] == '\'' && v.len() - from >= 2 {
            proof {
                assert(s[1] == v@[from + 1]);
            }
            match self.mark_line(ctx, v[from + 1]) {
                Some(line) => Address::Line(line, 2),
                None => Address::Unset,
            }
        } else {
            Address::Absent
        }
    }
}

/// A range read from a text.
struct LineRange {
    first: usize,
    last: usize,
    given: bool,
    used: usize,
}

impl View for LineRange {
    type V = Lines;

    closed spec fn view(&self) -> Lines {
        Lines {
            first: self.first as int,
            last: self.last as int,
            given: self.given,
            used: self.used as int,
        }
    }
}

fn range_between(a: usize, b: usize, used: usize) -> (r: LineRange)
    ensures
        r@ == between(a as int, b as int, used as int),
{
    if a <= b {
        LineRange { first: a, last: b, given: true, used }
    } else {
        LineRange { first: b, last: a, given: true, used }
    }
}

impl VimState {
    fn read_range<B: VimBufferMut, H: VimHost>(&self, ctx: &Ctx<B, H>, v: &Vec<char>) -> (r: Option<
        LineRange,
    >)
        ensures
            match r {
                Some(l) => ctx.world(*self).range(v@) == Some(l@) && l.used <= v.len(),
                None => ctx.world(*self).range(v@) is None,
            },
    {
        proof {
            reveal(World::range);
            ctx.buf.doc_wf();
            assert(v@.skip(0) =~= v@);
        }
        let here = ctx.buf.offset_to_line(self.cursor.offset);
        if v.len() > 0 && v[0] == '%' {
            return Some(range_between(0, ctx.buf.line_count() - 1, 1));
        }
        let (a, n) = match self.read_address(ctx, v, 0) {
            Address::Absent => {
                return Some(LineRange { first: here, last: here, given: false, used: 0 });
            },
            Address::Unset => {
                return None;
            },
            Address::Line(a, n) => (a, n),
        };
        if n < v.len() && v[n] == ',' {
            match self.read_address(ctx, v, n + 1) {
                Address::Absent => Some(range_between(a, here, n + 1)),
                Address::Unset => None,
                Address::Line(b, m) => Some(range_between(a, b, n + 1 + m)),
            }
        } else {
            Some(range_between(a, a, n))
        }
    }
}

// ---- commands ------------------------------------------------------------------------------------

/// A command without its range.
pub enum Ex {
    Nothing,
    Save,
    Quit { force: bool },
    SaveQuit,
    NoHighlight,
    SetOptions(Seq<Seq<char>>),
    Action(Seq<char>),
    Delete,
    Substitute(Change),
    Unknown,
}

/// `:s/pattern/replacement/flags`.
pub struct Change {
    pub pattern: Seq<char>,
    pub replacement: Seq<char>,
    /// Every match in a line, not only the first.
    pub all: bool,
    /// What the flags say of case: ignored, or not.
    pub ignore_case: Option<bool>,
}

/// How far it is to the next slash that no backslash stands before.
pub open spec fn slash_index(s: Seq<char>) -> int
    decreases s.len(),
{
    if s.len() == 0 || s[0] == '/' {
        0
    } else if s[0] == '\\' && s.len() >= 2 {
        2 + slash_index(s.skip(2))
    } else {
        1 + slash_index(s.drop_first())
    }
}

/// A part of a substitution with its slashes unescaped.
pub open spec fn unslashed(s: Seq<char>) -> Seq<char>
    decreases s.len(),
{
    if s.len() == 0 {
        s
    } else if s[0] == '\\' && s.len() >= 2 {
        if s[1] == '/' {
            seq!['/'] + unslashed(s.skip(2))
        } else {
            seq![s[0], s[1]] + unslashed(s.skip(2))
        }
    } else {
        seq![s[0]] + unslashed(s.drop_first())
    }
}

/// What stands behind the first slash.
pub open spec fn behind_slash(s: Seq<char>) -> Seq<char> {
    if slash_index(s) < s.len() {
        s.skip(slash_index(s) + 1)
    } else {
        Seq::empty()
    }
}

/// What stands before the first slash.
pub open spec fn before_slash(s: Seq<char>) -> Seq<char> {
    unslashed(s.take(slash_index(s)))
}

/// The flags of a substitution on case.
pub open spec fn case_flag(flags: Seq<char>) -> Option<bool> {
    if flags.contains('i') {
        Some(true)
    } else if flags.contains('I') {
        Some(false)
    } else {
        None
    }
}

pub open spec fn change_of(s: Seq<char>) -> Change {
    let flags = behind_slash(behind_slash(s));
    Change {
        pattern: before_slash(s),
        replacement: before_slash(behind_slash(s)),
        all: flags.contains('g'),
        ignore_case: case_flag(flags),
    }
}

/// What stands behind a command word.
pub open spec fn behind_word(cmd: Seq<char>, word: Seq<char>) -> Option<Seq<char>> {
    crate::config::after_word(cmd, word)
}

/// The command that a text gives.
#[verifier::opaque]
pub open spec fn ex_of(cmd: Seq<char>) -> Ex {
    if cmd.len() == 0 {
        Ex::Nothing
    } else if cmd == "w"@ {
        Ex::Save
    } else if cmd == "q"@ {
        Ex::Quit { force: false }
    } else if cmd == "q!"@ {
        Ex::Quit { force: true }
    } else if cmd == "wq"@ || cmd == "x"@ {
        Ex::SaveQuit
    } else if cmd == "d"@ {
        Ex::Delete
    } else if cmd.len() >= 3 && has_prefix("nohlsearch"@, cmd) {
        Ex::NoHighlight
    } else if behind_word(cmd, "set"@) is Some {
        Ex::SetOptions(words(behind_word(cmd, "set"@)->0))
    } else if behind_word(cmd, "action"@) is Some {
        Ex::Action(trimmed(behind_word(cmd, "action"@)->0))
    } else if has_prefix(cmd, "s/"@) {
        Ex::Substitute(change_of(cmd.skip(2)))
    } else {
        Ex::Unknown
    }
}

/// A command read from a text.
enum ExCmd {
    Nothing,
    Save,
    Quit { force: bool },
    SaveQuit,
    NoHighlight,
    SetOptions(Vec<Vec<char>>),
    Action(String),
    Delete,
    Substitute(Substitution),
    Unknown,
}

struct Substitution {
    pattern: String,
    replacement: String,
    all: bool,
    ignore_case: Option<bool>,
}

impl View for Substitution {
    type V = Change;

    closed spec fn view(&self) -> Change {
        Change {
            pattern: self.pattern@,
            replacement: self.replacement@,
            all: self.all,
            ignore_case: self.ignore_case,
        }
    }
}

impl View for ExCmd {
    type V = Ex;

    closed spec fn view(&self) -> Ex {
        match self {
            ExCmd::Nothing => Ex::Nothing,
            ExCmd::Save => Ex::Save,
            ExCmd::Quit { force } => Ex::Quit { force: *force },
            ExCmd::SaveQuit => Ex::SaveQuit,
            ExCmd::NoHighlight => Ex::NoHighlight,
            ExCmd::SetOptions(args) => Ex::SetOptions(texts(args@)),
            ExCmd::Action(id) => Ex::Action(id@),
            ExCmd::Delete => Ex::Delete,
            ExCmd::Substitute(s) => Ex::Substitute(s@),
            ExCmd::Unknown => Ex::Unknown,
        }
    }
}

fn find_slash(v: &Vec<char>) -> (n: usize)
    ensures
        n == slash_index(v@),
        n <= v.len(),
{
    let mut i: usize = 0;
    proof {
        assert(v@.skip(0) =~= v@);
    }
    while i < v.len() && v[i] != '/'
        invariant
            i <= v.len(),
            slash_index(v@) == i + slash_index(v@.skip(i as int)),
        decreases v.len() - i,
    {
        let ghost s = v@.skip(i as int);
        proof {
            assert(s[0] == v@[i as int]);
            assert(s.drop_first() =~= v@.skip(i + 1));
        }
        if v[i] == '\\' && v.len() - i >= 2 {
            proof {
                assert(s.skip(2) =~= v@.skip(i + 2));
            }
            i = i + 2;
        } else {
            i = i + 1;
        }
    }
    proof {
        if i < v.len() {
            assert(v@.skip(i as int)[0] == v@[i as int]);
        }
    }
    i
}

fn unslash(v: &Vec<char>) -> (s: String)
    ensures
        s@ == unslashed(v@),
{
    let mut s = String::new();
    let mut i: usize = 0;
    proof {
        assert(v@.skip(0) =~= v@);
        assert(s@ + unslashed(v@) =~= unslashed(v@));
    }
    while i < v.len()
        invariant
            i <= v.len(),
            s@ + unslashed(v@.skip(i as int)) == unslashed(v@),
        decreases v.len() - i,
    {
        let ghost rest = v@.skip(i as int);
        let ghost before = s@;
        proof {
            assert(rest[0] == v@[i as int]);
            assert(rest.drop_first() =~= v@.skip(i + 1));
        }
        if v[i] == '\\' && v.len() - i >= 2 {
            proof {
                assert(rest[1] == v@[i + 1]);
                assert(rest.skip(2) =~= v@.skip(i + 2));
            }
            if v[i + 1] == '/' {
                s.push('/');
                proof {
                    assert(s@ + unslashed(v@.skip(i + 2)) =~= before + (seq!['/'] + unslashed(
                        v@.skip(i + 2),
                    )));
                }
            } else {
                s.push(v[i]);
                s.push(v[i + 1]);
                proof {
                    assert(s@ + unslashed(v@.skip(i + 2)) =~= before + (seq![rest[0], rest[1]]
                        + unslashed(v@.skip(i + 2))));
                }
            }
            i = i + 2;
        } else {
            s.push(v[i]);
            proof {
                assert(s@ + unslashed(v@.skip(i + 1)) =~= before + (seq![rest[0]] + unslashed(
                    v@.skip(i + 1),
                )));
            }
            i = i + 1;
        }
    }
    proof {
        assert(v@.skip(i as int) =~= Seq::empty());
        assert(s@ + Seq::<char>::empty() =~= s@);
    }
    s
}

/// The part before the first slash, and what stands behind it.
fn cut_at_slash(v: &Vec<char>) -> (r: (String, Vec<char>))
    ensures
        r.0@ == before_slash(v@),
        r.1@ == behind_slash(v@),
{
    let n = find_slash(v);
    let front = sub_chars(v, 0, n);
    proof {
        assert(front@ =~= v@.take(n as int));
    }
    let rest = if n < v.len() {
        let rest = sub_chars(v, n + 1, v.len());
        proof {
            assert(rest@ =~= v@.skip(n + 1));
        }
        rest
    } else {
        Vec::new()
    };
    proof {
        assert(rest@ =~= behind_slash(v@));
    }
    (unslash(&front), rest)
}

fn has_char(v: &Vec<char>, c: char) -> (b: bool)
    ensures
        b == v@.contains(c),
{
    let n = crate::strs::find_char(v, c);
    proof {
        crate::strs::lemma_first_index(v@, c);
        if n < v.len() {
            assert(v@[n as int] == c);
        }
    }
    n < v.len()
}

fn read_change(v: &Vec<char>) -> (s: Substitution)
    ensures
        s@ == change_of(v@),
{
    let (pattern, rest) = cut_at_slash(v);
    let (replacement, flags) = cut_at_slash(&rest);
    let ignore_case = if has_char(&flags, 'i') {
        Some(true)
    } else if has_char(&flags, 'I') {
        Some(false)
    } else {
        None
    };
    Substitution { pattern, replacement, all: has_char(&flags, 'g'), ignore_case }
}

/// `p` begins with `v`.
fn begins(p: &str, v: &Vec<char>) -> (b: bool)
    ensures
        b == has_prefix(p@, v@),
{
    let text = string_of(v, 0, v.len());
    proof {
        assert(text@ =~= v@);
    }
    starts_with(&chars_of(p), text.as_str())
}

fn read_ex(v: &Vec<char>) -> (e: ExCmd)
    ensures
        e@ == ex_of(v@),
{
    proof {
        reveal(ex_of);
    }
    if v.len() == 0 {
        return ExCmd::Nothing;
    }
    let text = string_of(v, 0, v.len());
    proof {
        assert(text@ =~= v@);
    }
    let cmd = text.as_str();
    if same_str(cmd, "w") {
        ExCmd::Save
    } else if same_str(cmd, "q") {
        ExCmd::Quit { force: false }
    } else if same_str(cmd, "q!") {
        ExCmd::Quit { force: true }
    } else if same_str(cmd, "wq") || same_str(cmd, "x") {
        ExCmd::SaveQuit
    } else if same_str(cmd, "d") {
        ExCmd::Delete
    } else if v.len() >= 3 && begins("nohlsearch", v) {
        ExCmd::NoHighlight
    } else if let Some(rest) = crate::config::after_command(v, "set") {
        ExCmd::SetOptions(split_words(&rest))
    } else if let Some(rest) = crate::config::after_command(v, "action") {
        let id = trim_chars(&rest);
        let text = string_of(&id, 0, id.len());
        proof {
            assert(text@ =~= id@);
        }
        ExCmd::Action(text)
    } else if starts_with(v, "s/") {
        proof {
            reveal_strlit("s/");
        }
        let rest = sub_chars(v, 2, v.len());
        proof {
            assert(rest@ =~= v@.skip(2));
        }
        ExCmd::Substitute(read_change(&rest))
    } else {
        ExCmd::Unknown
    }
}

// ---- substitution --------------------------------------------------------------------------------

/// The matches of a line that are replaced: those that are not empty, all of
/// them or the first.
pub open spec fn picked(hits: Seq<(usize, usize, Seq<char>)>, all: bool) -> Seq<
    (usize, usize, Seq<char>),
>
    decreases hits.len(),
{
    if hits.len() == 0 {
        hits
    } else {
        let before = picked(hits.drop_last(), all);
        if hits.last().0 < hits.last().1 && (all || before.len() == 0) {
            before.push(hits.last())
        } else {
            before
        }
    }
}

/// Matches found in a text that begins at `base`.
pub open spec fn moved_hits(hits: Seq<(usize, usize, Seq<char>)>, base: int) -> Seq<
    (usize, usize, Seq<char>),
> {
    hits.map_values(
        |h: (usize, usize, Seq<char>)|
            (
                min(h.0 + base, usize::MAX as int) as usize,
                min(h.1 + base, usize::MAX as int) as usize,
                h.2,
            ),
    )
}

/// Keeps the matches of one line that are replaced and gives their place in
/// the buffer, where the line begins at `base`.
pub fn pick_hits(hits: &Vec<Hit>, all: bool, base: usize) -> (r: Vec<Hit>)
    ensures
        hits_of(r@) == moved_hits(picked(hits_of(hits@), all), base as int),
{
    let ghost list = hits_of(hits@);
    let mut r: Vec<Hit> = Vec::new();
    let mut i: usize = 0;
    proof {
        assert(list.take(0) =~= Seq::empty());
        assert(hits_of(r@) =~= moved_hits(picked(list.take(0), all), base as int));
    }
    while i < hits.len()
        invariant
            i <= hits.len(),
            list == hits_of(hits@),
            hits_of(r@) == moved_hits(picked(list.take(i as int), all), base as int),
        decreases hits.len() - i,
    {
        let ghost before = picked(list.take(i as int), all);
        proof {
            assert(list.take(i + 1).drop_last() =~= list.take(i as int));
            assert(list.take(i + 1).last() == list[i as int]);
            assert(hits_of(r@).len() == r.len());
            assert(moved_hits(before, base as int).len() == before.len());
        }
        if hits[i].start < hits[i].end && (all || r.len() == 0) {
            let ghost now = hits_of(r@);
            let hit = Hit {
                start: plus(hits[i].start, base),
                end: plus(hits[i].end, base),
                text: hits[i].text.clone(),
            };
            let ghost seen = (hit.start, hit.end, hit.text@);
            r.push(hit);
            proof {
                assert(hits_of(r@) =~= now.push(seen));
                assert(moved_hits(before.push(list[i as int]), base as int) =~= moved_hits(
                    before,
                    base as int,
                ).push(seen));
            }
        }
        i = i + 1;
    }
    proof {
        assert(list.take(i as int) =~= list);
    }
    r
}

/// What a substitution looks for and puts in its place.
pub struct Job {
    pub pattern: Seq<char>,
    pub ignore_case: bool,
    pub replacement: Seq<char>,
    pub all: bool,
}

impl Job {
    /// The matches in a text.
    pub open spec fn found(self, text: Seq<char>) -> Option<Seq<(usize, usize, Seq<char>)>> {
        regex_expansions(self.pattern, self.ignore_case, true, text, self.replacement)
    }

    /// The matches in a line that are replaced.
    pub open spec fn hits(self, d: Doc, line: int) -> Seq<(usize, usize, Seq<char>)> {
        match self.found(d.slice(d.line_start(line), d.line_end(line))) {
            Some(hits) => moved_hits(picked(hits, self.all), d.line_start(line)),
            None => Seq::empty(),
        }
    }

    /// The matches in `n` lines.
    pub open spec fn all_hits(self, d: Doc, first: int, n: int) -> Seq<(usize, usize, Seq<char>)>
        decreases n,
    {
        if n <= 0 {
            Seq::empty()
        } else {
            self.all_hits(d, first, n - 1) + self.hits(d, first + n - 1)
        }
    }

    /// How many of `n` lines have a match.
    pub open spec fn lines_hit(self, d: Doc, first: int, n: int) -> int
        decreases n,
    {
        if n <= 0 {
            0
        } else {
            self.lines_hit(d, first, n - 1) + if self.hits(d, first + n - 1).len() > 0 {
                1int
            } else {
                0
            }
        }
    }

    /// The last of `n` lines that has a match.
    pub open spec fn last_hit(self, d: Doc, first: int, n: int) -> int
        decreases n,
    {
        if n <= 0 {
            first
        } else if self.hits(d, first + n - 1).len() > 0 {
            first + n - 1
        } else {
            self.last_hit(d, first, n - 1)
        }
    }
}

/// `1 substitution on 1 line`, `3 substitutions on 2 lines`.
pub open spec fn report(count: int, lines: int) -> Seq<char> {
    decimal(count) + if count == 1 {
        " substitution on "@
    } else {
        " substitutions on "@
    } + decimal(lines) + if lines == 1 {
        " line"@
    } else {
        " lines"@
    }
}

impl World {
    /// The pattern and case of a substitution; an empty pattern is the last
    /// one searched for.
    pub open spec fn job(self, c: Change) -> Option<Job> {
        let pattern = if c.pattern.len() > 0 {
            Some(c.pattern)
        } else {
            self.vim.search.pattern
        };
        match pattern {
            Some(pattern) => Some(
                Job {
                    pattern,
                    ignore_case: match c.ignore_case {
                        Some(ignore) => ignore,
                        None => self.vim.options.ignores_case(pattern),
                    },
                    replacement: c.replacement,
                    all: c.all,
                },
            ),
            None => None,
        }
    }

    /// Each match replaced, the last one first.
    pub open spec fn replace_each<B: VimBufferMut>(
        self,
        hits: Seq<(usize, usize, Seq<char>)>,
    ) -> World
        decreases hits.len(),
    {
        if hits.len() == 0 {
            self
        } else {
            let h = hits.last();
            self.edit_replace::<B>(h.0 as int, h.1 as int, h.2).replace_each::<B>(hits.drop_last())
        }
    }

    /// The matches in `n` lines replaced as one undo step, the cursor in the
    /// last line that had one, and the counts reported.
    #[verifier::opaque]
    pub open spec fn replace_hits<B: VimBufferMut>(self, job: Job, first: int, n: int) -> World {
        let hits = job.all_hits(self.doc, first, n);
        if hits.len() == 0 {
            self.fail("E486: Pattern not found: "@ + job.pattern)
        } else {
            let w = self.begin_edit().replace_each::<B>(hits);
            let line = min(job.last_hit(self.doc, first, n), w.doc.line_count() - 1);
            w.moved_to(w.doc.first_non_blank(line)).end_edit().bump::<B>().say(
                HostCall::Status(
                    report(hits.len() as int, job.lines_hit(self.doc, first, n)),
                ),
            )
        }
    }

    /// `:s` on the lines from `first` to `last`.
    #[verifier::opaque]
    pub open spec fn substitute<B: VimBufferMut>(self, c: Change, first: int, last: int) -> World {
        match self.job(c) {
            Some(job) => if job.found(
                self.doc.slice(self.doc.line_start(first), self.doc.line_end(first)),
            ) is None {
                self.say(HostCall::Bell)
            } else {
                self.replace_hits::<B>(job, first, last - first + 1)
            },
            None => self.fail("E35: No previous regular expression"@),
        }
    }
}

/// What a substitution looks for and puts in its place.
struct Task {
    query: Query,
    replacement: String,
    all: bool,
}

impl View for Task {
    type V = Job;

    closed spec fn view(&self) -> Job {
        Job {
            pattern: self.query.pattern@,
            ignore_case: self.query.ignore_case,
            replacement: self.replacement@,
            all: self.all,
        }
    }
}

/// The matches in some lines: all of them, in how many lines they are, and
/// the last of these.
struct Found {
    hits: Vec<Hit>,
    lines: usize,
    last: usize,
}

proof fn lemma_more_hits(a: Seq<Hit>, b: Seq<Hit>)
    ensures
        hits_of(a + b) == hits_of(a) + hits_of(b),
{
    assert(hits_of(a + b) =~= hits_of(a) + hits_of(b));
}

impl Task {
    fn hits_in<B: VimBuffer>(&self, buf: &B, line: usize) -> (r: Option<Vec<Hit>>)
        requires
            self.query.multi_line,
        ensures
            match r {
                Some(v) => self@.hits(buf.doc(), line as int) == hits_of(v@) && self@.found(
                    buf.doc().slice(
                        buf.doc().line_start(line as int),
                        buf.doc().line_end(line as int),
                    ),
                ) is Some,
                None => self@.hits(buf.doc(), line as int).len() == 0 && self@.found(
                    buf.doc().slice(
                        buf.doc().line_start(line as int),
                        buf.doc().line_end(line as int),
                    ),
                ) is None,
            },
    {
        let text = buf.line_content(line);
        match expand_all(&self.query, text.as_str(), self.replacement.as_str()) {
            Some(hits) => Some(pick_hits(&hits, self.all, buf.line_start(line))),
            None => None,
        }
    }

    fn find<B: VimBuffer>(&self, buf: &B, first: usize, last: usize) -> (f: Found)
        requires
            self.query.multi_line,
            first <= last < usize::MAX,
        ensures
            hits_of(f.hits@) == self@.all_hits(buf.doc(), first as int, last - first + 1),
            f.lines == self@.lines_hit(buf.doc(), first as int, last - first + 1),
            f.last == self@.last_hit(buf.doc(), first as int, last - first + 1),
    {
        let ghost d = buf.doc();
        let ghost job = self@;
        let mut f = Found { hits: Vec::new(), lines: 0, last: first };
        let mut line: usize = first;
        proof {
            assert(hits_of(f.hits@) =~= Seq::empty());
        }
        while line <= last
            invariant
                self.query.multi_line,
                first <= line <= last + 1,
                last < usize::MAX,
                d == buf.doc(),
                job == self@,
                hits_of(f.hits@) == job.all_hits(d, first as int, line - first),
                f.lines == job.lines_hit(d, first as int, line - first),
                f.lines <= line - first,
                f.last == job.last_hit(d, first as int, line - first),
            decreases last + 1 - line,
        {
            let ghost before = hits_of(f.hits@);
            let ghost had = f.hits@;
            match self.hits_in(buf, line) {
                Some(hits) => {
                    let mut hits = hits;
                    let ghost more = hits@;
                    proof {
                        lemma_more_hits(had, more);
                        assert(hits_of(more).len() == more.len());
                    }
                    if hits.len() > 0 {
                        f.lines = f.lines + 1;
                        f.last = line;
                    }
                    f.hits.append(&mut hits);
                    proof {
                        assert(f.hits@ =~= had + more);
                    }
                },
                None => {
                    proof {
                        assert(before + Seq::empty() =~= before);
                        assert(job.hits(d, line as int) =~= Seq::empty());
                    }
                },
            }
            line = line + 1;
        }
        f
    }
}

fn report_text(count: usize, lines: usize) -> (s: String)
    ensures
        s@ == report(count as int, lines as int),
{
    let mut s = String::new();
    push_decimal(&mut s, count as u64);
    if count == 1 {
        s.push_str(" substitution on ");
    } else {
        s.push_str(" substitutions on ");
    }
    push_decimal(&mut s, lines as u64);
    if lines == 1 {
        s.push_str(" line");
    } else {
        s.push_str(" lines");
    }
    proof {
        assert(s@ =~= report(count as int, lines as int));
    }
    s
}

impl VimState {
    fn replace_each<B: VimBufferMut, H: VimHost>(&mut self, ctx: &mut Ctx<B, H>, hits: &Vec<Hit>)
        ensures
            *final(final(ctx).buf) == *final(old(ctx).buf),
            *final(final(ctx).host) == *final(old(ctx).host),
            hears(*final(ctx).host, final(self)@.told, *old(ctx).host, old(self)@.told),
            final(ctx).world(*final(self)) == old(ctx).world(*old(self)).replace_each::<B>(
                hits_of(hits@),
            ),
            final(ctx).env() == old(ctx).env(),
    {
        let ghost all = hits_of(hits@);
        let ghost want = ctx.world(*self).replace_each::<B>(all);
        let ghost e = ctx.env();
        let mut n: usize = hits.len();
        proof {
            assert(all.take(n as int) =~= all);
        }
        while n > 0
            invariant
                *final(ctx.buf) == *final(old(ctx).buf),
                *final(ctx.host) == *final(old(ctx).host),
                hears(*ctx.host, self@.told, *old(ctx).host, old(self)@.told),
                n <= hits.len(),
                all == hits_of(hits@),
                ctx.world(*self).replace_each::<B>(all.take(n as int)) == want,
                ctx.env() == e,
            decreases n,
        {
            proof {
                assert(all.take(n as int).drop_last() =~= all.take(n - 1));
                assert(all.take(n as int).last() == all[n - 1]);
            }
            n = n - 1;
            self.edit_replace(ctx, hits[n].start..hits[n].end, hits[n].text.as_str());
        }
    }

    fn replace_hits<B: VimBufferMut, H: VimHost>(
        &mut self,
        ctx: &mut Ctx<B, H>,
        task: &Task,
        first: usize,
        last: usize,
    )
        requires
            task.query.multi_line,
            first <= last < usize::MAX,
        ensures
            *final(final(ctx).buf) == *final(old(ctx).buf),
            *final(final(ctx).host) == *final(old(ctx).host),
            hears(*final(ctx).host, final(self)@.told, *old(ctx).host, old(self)@.told),
            final(ctx).world(*final(self)) == old(ctx).world(*old(self)).replace_hits::<B>(
                task@,
                first as int,
                last - first + 1,
            ),
    {
        proof {
            reveal(World::replace_hits);
        }
        let found = task.find(&*ctx.buf, first, last);
        proof {
            assert(hits_of(found.hits@).len() == found.hits.len());
        }
        if found.hits.len() == 0 {
            let mut reason = copy_str("E486: Pattern not found: ");
            reason.push_str(task.query.pattern.as_str());
            self.fail(ctx, reason.as_str());
            return;
        }
        let told = report_text(found.hits.len(), found.lines);
        self.begin_edit(ctx);
        self.replace_each(ctx, &found.hits);
        self.place_on_line(ctx, found.last);
        self.end_edit();
        self.bump(ctx);
        self.status(ctx, told.as_str());
    }

    fn task_of(&self, s: &Substitution) -> (t: Option<Task>)
        ensures
            forall|w: World|
                w.vim == self@ ==> match t {
                    Some(t) => #[trigger] w.job(s@) == Some(t@) && t.query.multi_line,
                    None => w.job(s@) is None,
                },
    {
        let pattern = if s.pattern.as_str().is_empty() {
            match &self.search.pattern {
                Some(pattern) => pattern.clone(),
                None => {
                    return None;
                },
            }
        } else {
            s.pattern.clone()
        };
        let ignore_case = match s.ignore_case {
            Some(ignore) => ignore,
            None => self.options.case_insensitive_for(pattern.as_str()),
        };
        Some(
            Task {
                query: Query { pattern, ignore_case, multi_line: true },
                replacement: s.replacement.clone(),
                all: s.all,
            },
        )
    }

    fn substitute<B: VimBufferMut, H: VimHost>(
        &mut self,
        ctx: &mut Ctx<B, H>,
        s: &Substitution,
        first: usize,
        last: usize,
    )
        requires
            first <= last < usize::MAX,
        ensures
            *final(final(ctx).buf) == *final(old(ctx).buf),
            *final(final(ctx).host) == *final(old(ctx).host),
            hears(*final(ctx).host, final(self)@.told, *old(ctx).host, old(self)@.told),
            final(ctx).world(*final(self)) == old(ctx).world(*old(self)).substitute::<B>(
                s@,
                first as int,
                last as int,
            ),
    {
        proof {
            reveal(World::substitute);
        }
        let task = match self.task_of(s) {
            Some(task) => task,
            None => {
                assert(ctx.world(*self).job(s@) is None);
                self.fail(ctx, "E35: No previous regular expression");
                return;
            },
        };
        assert(ctx.world(*self).job(s@) == Some(task@));
        if task.hits_in(&*ctx.buf, first).is_none() {
            self.bell(ctx);
            return;
        }
        self.replace_hits(ctx, &task, first, last);
    }
}

// ---- running ---------------------------------------------------------------------------------------

impl World {
    /// `:N`: the cursor on the first non-blank of a line.
    #[verifier::opaque]
    pub open spec fn go_to_line(self, line: int) -> World {
        let to = self.doc.first_non_blank(line);
        let w = self.moved_to(to);
        w.with_vim(w.vim.record_jump(self.vim.cursor.offset, to as usize)).say(
            HostCall::Scroll(line),
        )
    }

    /// `:d`: lines deleted.
    #[verifier::opaque]
    pub open spec fn delete_lines<B: VimBufferMut>(self, first: int, last: int) -> World {
        self.begin_edit().delete_span::<B>(
            line_span(self.doc, first, last),
            None,
        ).end_edit().bump::<B>()
    }

    /// One argument of `:set`.
    #[verifier::opaque]
    pub open spec fn set_option(self, arg: Seq<char>) -> World {
        match self.vim.options.chosen(choice_of(arg)) {
            Some(options) => self.with_vim(Vim { options, ..self.vim }),
            None => self.fail("E518: Unknown option: "@ + arg),
        }
    }

    /// `:set`.
    pub open spec fn set_options(self, args: Seq<Seq<char>>) -> World
        decreases args.len(),
    {
        if args.len() == 0 {
            self
        } else {
            self.set_options(args.drop_last()).set_option(args.last())
        }
    }

    /// A command on its lines.
    #[verifier::opaque]
    pub open spec fn do_ex<B: VimBufferMut>(self, cmd: Seq<char>, lines: Lines) -> World {
        match ex_of(cmd) {
            Ex::Nothing => if lines.given {
                self.go_to_line(lines.last)
            } else {
                self
            },
            Ex::Save => self.say(HostCall::Save(self.doc)),
            Ex::Quit { force } => self.say(HostCall::Close(force)),
            Ex::SaveQuit => self.say(HostCall::Save(self.doc)).say(HostCall::Close(true)),
            Ex::NoHighlight => self.with_vim(self.vim.without_highlights()),
            Ex::SetOptions(args) => self.set_options(args),
            Ex::Action(id) => self.say(HostCall::Action(id, !self.vim.lenient_actions)),
            Ex::Delete => self.delete_lines::<B>(lines.first, lines.last),
            Ex::Substitute(c) => self.substitute::<B>(c, lines.first, lines.last),
            Ex::Unknown => self.fail("E492: Not an editor command: "@ + cmd),
        }
    }

    /// A command line.
    #[verifier::opaque]
    pub open spec fn run_ex<B: VimBufferMut>(self, line: Seq<char>) -> World {
        let text = trimmed(line);
        match self.range(text) {
            Some(lines) => self.do_ex::<B>(trimmed(text.skip(lines.used)), lines),
            None => self.fail("E20: Mark not set"@),
        }
    }
}

fn joined(a: &str, b: &Vec<char>) -> (s: String)
    ensures
        s@ == a@ + b@,
{
    let mut s = copy_str(a);
    let rest = string_of(b, 0, b.len());
    proof {
        assert(rest@ =~= b@);
    }
    s.push_str(rest.as_str());
    s
}

impl VimState {
    fn go_to_line<B: VimBufferMut, H: VimHost>(&mut self, ctx: &mut Ctx<B, H>, line: usize)
        ensures
            *final(final(ctx).buf) == *final(old(ctx).buf),
            *final(final(ctx).host) == *final(old(ctx).host),
            hears(*final(ctx).host, final(self)@.told, *old(ctx).host, old(self)@.told),
            final(ctx).world(*final(self)) == old(ctx).world(*old(self)).go_to_line(line as int),
    {
        proof {
            reveal(World::go_to_line);
        }
        let origin = self.cursor.offset;
        let to = ctx.buf.first_non_blank(line);
        self.place(to);
        self.record_jump(origin, to);
        self.scroll_to(ctx, line);
    }

    fn delete_lines<B: VimBufferMut, H: VimHost>(
        &mut self,
        ctx: &mut Ctx<B, H>,
        first: usize,
        last: usize,
    )
        ensures
            *final(final(ctx).buf) == *final(old(ctx).buf),
            *final(final(ctx).host) == *final(old(ctx).host),
            hears(*final(ctx).host, final(self)@.told, *old(ctx).host, old(self)@.told),
            final(ctx).world(*final(self)) == old(ctx).world(*old(self)).delete_lines::<B>(
                first as int,
                last as int,
            ),
    {
        proof {
            reveal(World::delete_lines);
        }
        let s = lines_span(&*ctx.buf, first, last);
        self.begin_edit(ctx);
        delete_span(self, ctx, &s, None);
        self.end_edit();
        self.bump(ctx);
    }

    fn set_option<B: VimBufferMut, H: VimHost>(&mut self, ctx: &mut Ctx<B, H>, arg: &Vec<char>)
        ensures
            *final(final(ctx).buf) == *final(old(ctx).buf),
            *final(final(ctx).host) == *final(old(ctx).host),
            hears(*final(ctx).host, final(self)@.told, *old(ctx).host, old(self)@.told),
            final(ctx).world(*final(self)) == old(ctx).world(*old(self)).set_option(arg@),
    {
        proof {
            reveal(World::set_option);
        }
        let setting = read_setting(arg);
        if !self.options.apply_setting(&setting) {
            let reason = joined("E518: Unknown option: ", arg);
            self.fail(ctx, reason.as_str());
        }
    }

    fn set_options<B: VimBufferMut, H: VimHost>(
        &mut self,
        ctx: &mut Ctx<B, H>,
        args: &Vec<Vec<char>>,
    )
        ensures
            *final(final(ctx).buf) == *final(old(ctx).buf),
            *final(final(ctx).host) == *final(old(ctx).host),
            hears(*final(ctx).host, final(self)@.told, *old(ctx).host, old(self)@.told),
            final(ctx).world(*final(self)) == old(ctx).world(*old(self)).set_options(texts(args@)),
    {
        let ghost all = texts(args@);
        let ghost w = ctx.world(*self);
        let mut i: usize = 0;
        proof {
            assert(all.take(0) =~= Seq::empty());
        }
        while i < args.len()
            invariant
                *final(ctx.buf) == *final(old(ctx).buf),
                *final(ctx.host) == *final(old(ctx).host),
                hears(*ctx.host, self@.told, *old(ctx).host, old(self)@.told),
                i <= args.len(),
                all == texts(args@),
                ctx.world(*self) == w.set_options(all.take(i as int)),
            decreases args.len() - i,
        {
            proof {
                assert(all.take(i + 1).drop_last() =~= all.take(i as int));
                assert(all.take(i + 1).last() == args@[i as int]@);
            }
            self.set_option(ctx, &args[i]);
            i = i + 1;
        }
        proof {
            assert(all.take(i as int) =~= all);
        }
    }

    fn do_ex<B: VimBufferMut, H: VimHost>(
        &mut self,
        ctx: &mut Ctx<B, H>,
        cmd: &Vec<char>,
        lines: &LineRange,
    )
        requires
            lines.first <= lines.last < usize::MAX,
        ensures
            *final(final(ctx).buf) == *final(old(ctx).buf),
            *final(final(ctx).host) == *final(old(ctx).host),
            hears(*final(ctx).host, final(self)@.told, *old(ctx).host, old(self)@.told),
            final(ctx).world(*final(self)) == old(ctx).world(*old(self)).do_ex::<B>(cmd@, lines@),
    {
        proof {
            reveal(World::do_ex);
        }
        match read_ex(cmd) {
            ExCmd::Nothing => {
                if lines.given {
                    self.go_to_line(ctx, lines.last);
                }
            },
            ExCmd::Save => self.tell_save(ctx),
            ExCmd::Quit { force } => self.tell_close(ctx, force),
            ExCmd::SaveQuit => {
                self.tell_save(ctx);
                self.tell_close(ctx, true);
            },
            ExCmd::NoHighlight => crate::search::clear_highlights(self, ctx),
            ExCmd::SetOptions(args) => self.set_options(ctx, &args),
            ExCmd::Action(id) => {
                let strict = !self.lenient_actions;
                self.tell_action(ctx, id.as_str(), strict)
            },
            ExCmd::Delete => self.delete_lines(ctx, lines.first, lines.last),
            ExCmd::Substitute(s) => self.substitute(ctx, &s, lines.first, lines.last),
            ExCmd::Unknown => {
                let reason = joined("E492: Not an editor command: ", cmd);
                self.fail(ctx, reason.as_str());
            },
        }
    }

    /// Runs a command line.
    pub(crate) fn run_ex<B: VimBufferMut, H: VimHost>(&mut self, ctx: &mut Ctx<B, H>, line: &str)
        ensures
            *final(final(ctx).buf) == *final(old(ctx).buf),
            *final(final(ctx).host) == *final(old(ctx).host),
            hears(*final(ctx).host, final(self)@.told, *old(ctx).host, old(self)@.told),
            final(ctx).world(*final(self)) == old(ctx).world(*old(self)).run_ex::<B>(line@),
    {
        proof {
            reveal(World::run_ex);
        }
        let text = trim_chars(&chars_of(line));
        match self.read_range(&*ctx, &text) {
            Some(lines) => {
                proof {
                    ctx.buf.doc_wf();
                    lemma_range_in_text(ctx.world(*self), text@);
                }
                let rest = sub_chars(&text, lines.used, text.len());
                proof {
                    assert(rest@ =~= text@.skip(lines.used as int));
                }
                let cmd = trim_chars(&rest);
                self.do_ex(ctx, &cmd, &lines);
            },
            None => self.fail(ctx, "E20: Mark not set"),
        }
    }
}

/// A range names lines of the text, in order.
pub proof fn lemma_range_in_text(w: World, s: Seq<char>)
    requires
        w.doc.wf(),
    ensures
        w.range(s) matches Some(l) ==> 0 <= l.first <= l.last < w.doc.line_count(),
{
    reveal(World::range);
    w.doc.lemma_line_of(w.cursor());
    lemma_address_in_text(w, s);
    if let Spot::Line(a, n) = w.address(s) {
        if n < s.len() {
            lemma_address_in_text(w, s.skip(n + 1));
        }
    }
}

proof fn lemma_address_in_text(w: World, s: Seq<char>)
    requires
        w.doc.wf(),
    ensures
        w.address(s) matches Spot::Line(a, n) ==> 0 <= a < w.doc.line_count(),
{
    reveal(World::address);
    w.doc.lemma_line_of(w.cursor());
    if s.len() >= 2 {
        if let Some(o) = w.vim.marks.resolved(s[1]) {
            w.doc.lemma_line_of(min(o as int, w.doc.len()));
            w.doc.lemma_line_of(min(max(o - 1, 0), w.doc.len()));
        }
    }
}

} // verus!
