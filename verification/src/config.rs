//! Parser for `~/.gpui-vimrc` style configuration — the IdeaVim-compatible
//! subset: `set` options, `:map`-family mappings (with `<Leader>`), `"`
//! comments and `source`. Anything else (Lua, functions, autocmds, plugin
//! managers) is collected into `Config::ignored` and skipped, like IdeaVim.
use crate::key::{
    char_stroke, copy_keys, parse_key_chars, parsed_sequence, strokes, Key, Kind, Stroke,
};
use crate::keymap::{Maps, ModeClass, Rhs};
use crate::doc::min;
use crate::options::{amount_of, flag_of, is_bool_option, Options};
use crate::shift::plus;
use crate::state::{texts_of, Vim, VimState};
use crate::strs::{
    chars_of, digits_value, find_char, first_index, has_prefix, is_number, split_at, split_chars,
    split_lines, split_words, starts_with, string_of, strip_chars, stripped, sub_chars, text_lines,
    texts, trim_chars, trim_front, trim_start_chars, trimmed, unsigned, words,
};
use vstd::prelude::*;

verus! {

/// One `set` item. `On`/`Off`/`Toggle` are booleans; `Value` is `name=value`.
#[derive(Debug, PartialEq, Eq)]
pub enum Setting {
    On(String),
    Off(String),
    Toggle(String),
    Value(String, String),
}

/// What a [`Setting`] asks for.
pub enum Choice {
    On(Seq<char>),
    Off(Seq<char>),
    Toggle(Seq<char>),
    Value(Seq<char>, Seq<char>),
}

impl View for Setting {
    type V = Choice;

    open spec fn view(&self) -> Choice {
        match self {
            Setting::On(name) => Choice::On(name@),
            Setting::Off(name) => Choice::Off(name@),
            Setting::Toggle(name) => Choice::Toggle(name@),
            Setting::Value(name, value) => Choice::Value(name@, value@),
        }
    }
}

/// One mapping from the `:map` family, resolved against the file's
/// `mapleader` (so `<Leader>` in the LHS is already a concrete key).
pub struct ConfigMapping {
    pub class: ModeClass,
    pub lhs: Vec<Key>,
    pub rhs: Vec<Key>,
    pub noremap: bool,
}

/// What a [`ConfigMapping`] maps.
pub struct MapLine {
    pub class: ModeClass,
    pub lhs: Seq<Stroke>,
    pub rhs: Seq<Stroke>,
    pub noremap: bool,
}

impl View for ConfigMapping {
    type V = MapLine;

    open spec fn view(&self) -> MapLine {
        MapLine {
            class: self.class,
            lhs: strokes(self.lhs@),
            rhs: strokes(self.rhs@),
            noremap: self.noremap,
        }
    }
}

/// A parsed configuration file.
pub struct Config {
    pub settings: Vec<Setting>,
    pub mappings: Vec<ConfigMapping>,
    /// `source <path>` directives, in file order. The loader applies them.
    pub sources: Vec<String>,
    /// Lines that were not understood (Lua, functions, autocmds, ...).
    pub ignored: Vec<String>,
}

/// What a [`Config`] holds.
pub struct RcFile {
    pub settings: Seq<Choice>,
    pub mappings: Seq<MapLine>,
    pub sources: Seq<Seq<char>>,
    pub ignored: Seq<Seq<char>>,
}

pub open spec fn choices(v: Seq<Setting>) -> Seq<Choice> {
    v.map_values(|s: Setting| s@)
}

pub open spec fn map_lines(v: Seq<ConfigMapping>) -> Seq<MapLine> {
    v.map_values(|m: ConfigMapping| m@)
}

impl View for Config {
    type V = RcFile;

    open spec fn view(&self) -> RcFile {
        RcFile {
            settings: choices(self.settings@),
            mappings: map_lines(self.mappings@),
            sources: texts_of(self.sources@),
            ignored: texts_of(self.ignored@),
        }
    }
}

pub open spec fn no_config() -> RcFile {
    RcFile {
        settings: Seq::empty(),
        mappings: Seq::empty(),
        sources: Seq::empty(),
        ignored: Seq::empty(),
    }
}

impl Default for Config {
    fn default() -> (c: Self)
        ensures
            c@ == no_config(),
    {
        let c = Config {
            settings: Vec::new(),
            mappings: Vec::new(),
            sources: Vec::new(),
            ignored: Vec::new(),
        };
        proof {
            assert(c@.settings =~= Seq::<Choice>::empty());
            assert(c@.mappings =~= Seq::<MapLine>::empty());
            assert(c@.sources =~= Seq::<Seq<char>>::empty());
            assert(c@.ignored =~= Seq::<Seq<char>>::empty());
        }
        c
    }
}

/// Counts reported by [`VimState::apply_config`].
#[derive(Debug, Clone, Copy, PartialEq, Eq, Structural)]
pub struct ConfigStats {
    pub options: usize,
    pub mappings: usize,
    pub ignored: usize,
}

impl Default for ConfigStats {
    fn default() -> (s: Self)
        ensures
            s == (ConfigStats { options: 0, mappings: 0, ignored: 0 }),
    {
        ConfigStats { options: 0, mappings: 0, ignored: 0 }
    }
}

// ---- set ---------------------------------------------------------------------------------------

/// What one argument of `set` asks for. A leading `no` negates only when it
/// stands before a boolean option.
pub open spec fn choice_of(arg: Seq<char>) -> Choice {
    let eq = first_index(arg, '=');
    if eq < arg.len() {
        Choice::Value(arg.take(eq), arg.skip(eq + 1))
    } else if arg.len() > 0 && arg.last() == '!' {
        Choice::Toggle(arg.drop_last())
    } else if has_prefix(arg, "no"@) && flag_of(arg.skip(2)) is Some {
        Choice::Off(arg.skip(2))
    } else {
        Choice::On(arg)
    }
}

/// The text of some characters from `from` up to `to`.
fn text_between(v: &Vec<char>, from: usize, to: usize) -> (s: String)
    requires
        from <= to <= v.len(),
    ensures
        s@ == v@.subrange(from as int, to as int),
{
    string_of(v, from, to)
}

pub(crate) fn read_setting(arg: &Vec<char>) -> (s: Setting)
    ensures
        s@ == choice_of(arg@),
{
    let n = arg.len();
    let eq = find_char(arg, '=');
    if eq < n {
        let s = Setting::Value(text_between(arg, 0, eq), text_between(arg, eq + 1, n));
        proof {
            assert(arg@.subrange(0, eq as int) =~= arg@.take(eq as int));
            assert(arg@.subrange(eq + 1, n as int) =~= arg@.skip(eq + 1));
        }
        return s;
    }
    if n > 0 && arg[n - 1] == '!' {
        let name = text_between(arg, 0, n - 1);
        proof {
            assert(name@ =~= arg@.drop_last());
        }
        return Setting::Toggle(name);
    }
    if starts_with(arg, "no") {
        proof {
            reveal_strlit("no");
        }
        let name = text_between(arg, 2, n);
        proof {
            assert(name@ =~= arg@.skip(2));
        }
        if is_bool_option(name.as_str()) {
            return Setting::Off(name);
        }
    }
    let name = text_between(arg, 0, n);
    proof {
        assert(name@ =~= arg@);
    }
    Setting::On(name)
}

// ---- lines -----------------------------------------------------------------------------------------

/// What stands behind a command word; nothing when the line does not begin
/// with it. ("map" must not match "mapping".)
pub open spec fn after_word(line: Seq<char>, cmd: Seq<char>) -> Option<Seq<char>> {
    if has_prefix(line, cmd) && (line.len() == cmd.len() || line[cmd.len() as int] == ' ') {
        Some(line.skip(cmd.len() as int))
    } else {
        None
    }
}

/// A line of the `:map` family: whether it maps without remapping, the tables
/// it maps in, and its arguments.
pub open spec fn map_command(line: Seq<char>) -> Option<(bool, Seq<ModeClass>, Seq<char>)> {
    let both = seq![ModeClass::Normal, ModeClass::Visual];
    if after_word(line, "noremap"@) is Some {
        Some((true, both, after_word(line, "noremap"@)->0))
    } else if after_word(line, "nnoremap"@) is Some {
        Some((true, seq![ModeClass::Normal], after_word(line, "nnoremap"@)->0))
    } else if after_word(line, "vnoremap"@) is Some {
        Some((true, seq![ModeClass::Visual], after_word(line, "vnoremap"@)->0))
    } else if after_word(line, "inoremap"@) is Some {
        Some((true, seq![ModeClass::Insert], after_word(line, "inoremap"@)->0))
    } else if after_word(line, "nmap"@) is Some {
        Some((false, seq![ModeClass::Normal], after_word(line, "nmap"@)->0))
    } else if after_word(line, "vmap"@) is Some {
        Some((false, seq![ModeClass::Visual], after_word(line, "vmap"@)->0))
    } else if after_word(line, "imap"@) is Some {
        Some((false, seq![ModeClass::Insert], after_word(line, "imap"@)->0))
    } else if after_word(line, "map"@) is Some {
        Some((false, both, after_word(line, "map"@)->0))
    } else {
        None
    }
}

/// The keys of a mapping side, the leader in place of `<Leader>`. The
/// substitution happens on the parsed keys, never on the text: a leader with
/// a longer name would come apart.
pub open spec fn with_leader(keys: Seq<Stroke>, leader: Stroke) -> Seq<Stroke> {
    keys.map_values(
        |k: Stroke|
            if k.kind == Kind::Named("leader"@) {
                leader
            } else {
                k
            },
    )
}

/// The two sides of a mapping; nothing when one is missing.
pub open spec fn sides(args: Seq<char>) -> Option<(Seq<char>, Seq<char>)> {
    let text = trim_front(args);
    let gap = first_index(text, ' ');
    if 0 < gap < text.len() && trimmed(text.skip(gap + 1)).len() > 0 {
        Some((text.take(gap), trim_front(text.skip(gap + 1))))
    } else {
        None
    }
}

/// The leader that the value in `let mapleader = "x"` names.
pub open spec fn leader_named(rest: Seq<char>) -> Option<Stroke> {
    let parts = split_at(rest, '=');
    if parts.len() > 1 {
        let keys = parsed_sequence(stripped(trimmed(parts[1]), '"'));
        if keys.len() > 0 {
            Some(keys[0])
        } else {
            None
        }
    } else {
        None
    }
}

/// A line without the white space around it and without a colon before it.
pub open spec fn bare_line(raw: Seq<char>) -> Seq<char> {
    let line = trimmed(raw);
    if line.len() > 0 && line[0] == ':' {
        line.drop_first()
    } else {
        line
    }
}

/// What has been read so far, and the leader at this point.
pub struct Reading {
    pub rc: RcFile,
    pub leader: Stroke,
}

/// The mappings that one line makes.
pub open spec fn mappings_for(
    classes: Seq<ModeClass>,
    lhs: Seq<Stroke>,
    rhs: Seq<Stroke>,
    noremap: bool,
) -> Seq<MapLine> {
    classes.map_values(|class: ModeClass| MapLine { class, lhs, rhs, noremap })
}

impl Reading {
    /// A line that is not understood.
    pub open spec fn ignoring(self, raw: Seq<char>) -> Reading {
        Reading { rc: RcFile { ignored: self.rc.ignored.push(raw), ..self.rc }, ..self }
    }

    /// A line of the `:map` family.
    #[verifier::opaque]
    pub open spec fn mapping(self, raw: Seq<char>, line: Seq<char>) -> Reading {
        match map_command(line) {
            Some((noremap, classes, args)) => match sides(args) {
                Some((l, r)) => {
                    let lhs = with_leader(parsed_sequence(l), self.leader);
                    let rhs = with_leader(parsed_sequence(r), self.leader);
                    if lhs.len() > 0 {
                        Reading {
                            rc: RcFile {
                                mappings: self.rc.mappings + mappings_for(
                                    classes,
                                    lhs,
                                    rhs,
                                    noremap,
                                ),
                                ..self.rc
                            },
                            ..self
                        }
                    } else {
                        self.ignoring(raw)
                    }
                },
                None => self.ignoring(raw),
            },
            None => self.ignoring(raw),
        }
    }

    /// One more line read.
    #[verifier::opaque]
    pub open spec fn line(self, raw: Seq<char>) -> Reading {
        let line = bare_line(raw);
        if line.len() == 0 || line[0] == '"' {
            self
        } else if has_prefix(line, "let mapleader"@) {
            match leader_named(line.skip("let mapleader"@.len() as int)) {
                Some(leader) => Reading { leader, ..self },
                None => self,
            }
        } else if after_word(line, "set"@) is Some {
            Reading {
                rc: RcFile {
                    settings: self.rc.settings + words(after_word(line, "set"@)->0).map_values(
                        |arg: Seq<char>| choice_of(arg),
                    ),
                    ..self.rc
                },
                ..self
            }
        } else if has_prefix(line, "source "@) {
            Reading {
                rc: RcFile {
                    sources: self.rc.sources.push(trimmed(line.skip("source"@.len() as int))),
                    ..self.rc
                },
                ..self
            }
        } else {
            self.mapping(raw, line)
        }
    }
}

/// Some lines read, one after the other.
pub open spec fn read_lines(lines: Seq<Seq<char>>) -> Reading
    decreases lines.len(),
{
    if lines.len() == 0 {
        Reading { rc: no_config(), leader: char_stroke('\\') }
    } else {
        read_lines(lines.drop_last()).line(lines.last())
    }
}

/// What a configuration text says.
pub open spec fn parsed_config(text: Seq<char>) -> RcFile {
    read_lines(text_lines(text)).rc
}

// ---- reading --------------------------------------------------------------------------------------

pub(crate) fn after_command(line: &Vec<char>, cmd: &str) -> (r: Option<Vec<char>>)
    ensures
        match r {
            Some(v) => after_word(line@, cmd@) == Some(v@),
            None => after_word(line@, cmd@) is None,
        },
{
    if !starts_with(line, cmd) {
        return None;
    }
    let n = chars_of(cmd).len();
    // command boundary: end of line or a space
    if line.len() == n || line[n] == ' ' {
        let rest = sub_chars(line, n, line.len());
        proof {
            assert(rest@ =~= line@.skip(n as int));
        }
        Some(rest)
    } else {
        None
    }
}

fn one(class: ModeClass) -> (v: Vec<ModeClass>)
    ensures
        v@ == seq![class],
{
    let mut v: Vec<ModeClass> = Vec::new();
    v.push(class);
    proof {
        assert(v@ =~= seq![class]);
    }
    v
}

fn normal_and_visual() -> (v: Vec<ModeClass>)
    ensures
        v@ == seq![ModeClass::Normal, ModeClass::Visual],
{
    let mut v: Vec<ModeClass> = Vec::new();
    v.push(ModeClass::Normal);
    v.push(ModeClass::Visual);
    proof {
        assert(v@ =~= seq![ModeClass::Normal, ModeClass::Visual]);
    }
    v
}

fn read_map_command(line: &Vec<char>) -> (r: Option<(bool, Vec<ModeClass>, Vec<char>)>)
    ensures
        match r {
            Some((noremap, classes, args)) => map_command(line@) == Some(
                (noremap, classes@, args@),
            ),
            None => map_command(line@) is None,
        },
{
    if let Some(rest) = after_command(line, "noremap") {
        Some((true, normal_and_visual(), rest))
    } else if let Some(rest) = after_command(line, "nnoremap") {
        Some((true, one(ModeClass::Normal), rest))
    } else if let Some(rest) = after_command(line, "vnoremap") {
        Some((true, one(ModeClass::Visual), rest))
    } else if let Some(rest) = after_command(line, "inoremap") {
        Some((true, one(ModeClass::Insert), rest))
    } else if let Some(rest) = after_command(line, "nmap") {
        Some((false, one(ModeClass::Normal), rest))
    } else if let Some(rest) = after_command(line, "vmap") {
        Some((false, one(ModeClass::Visual), rest))
    } else if let Some(rest) = after_command(line, "imap") {
        Some((false, one(ModeClass::Insert), rest))
    } else if let Some(rest) = after_command(line, "map") {
        Some((false, normal_and_visual(), rest))
    } else {
        None
    }
}

/// Parse a mapping side, resolving the `<Leader>`/`<leader>` token against
/// the file's `mapleader`.
fn parse_with_leader(text: &Vec<char>, leader: &Key) -> (r: Vec<Key>)
    ensures
        strokes(r@) == with_leader(parsed_sequence(text@), leader@),
{
    let keys = parse_key_chars(text);
    let ghost all = strokes(keys@);
    let ghost want = with_leader(all, leader@);
    let mut r: Vec<Key> = Vec::new();
    let mut i: usize = 0;
    proof {
        assert(strokes(r@) =~= want.take(0));
    }
    while i < keys.len()
        invariant
            i <= keys.len(),
            all == strokes(keys@),
            want == with_leader(all, leader@),
            strokes(r@) == want.take(i as int),
        decreases keys.len() - i,
    {
        let ghost before = strokes(r@);
        let key = if keys[i].is_named("leader") {
            leader.clone()
        } else {
            keys[i].clone()
        };
        let ghost seen = key@;
        r.push(key);
        proof {
            assert(all[i as int] == keys@[i as int]@);
            assert(want[i as int] == seen);
            assert(strokes(r@) =~= before.push(seen));
            assert(want.take(i + 1) =~= want.take(i as int).push(seen));
        }
        i = i + 1;
    }
    proof {
        assert(want.take(i as int) =~= want);
    }
    r
}

fn read_sides(args: &Vec<char>) -> (r: Option<(Vec<char>, Vec<char>)>)
    ensures
        match r {
            Some((l, t)) => sides(args@) == Some((l@, t@)),
            None => sides(args@) is None,
        },
{
    let text = trim_start_chars(args);
    let gap = find_char(&text, ' ');
    if gap == 0 || gap >= text.len() {
        return None;
    }
    let rest = sub_chars(&text, gap + 1, text.len());
    proof {
        assert(rest@ =~= text@.skip(gap + 1));
    }
    if trim_chars(&rest).len() == 0 {
        return None;
    }
    let left = sub_chars(&text, 0, gap);
    proof {
        assert(left@ =~= text@.take(gap as int));
    }
    Some((left, trim_start_chars(&rest)))
}

fn read_leader(rest: &Vec<char>) -> (r: Option<Key>)
    ensures
        match r {
            Some(k) => leader_named(rest@) == Some(k@),
            None => leader_named(rest@) is None,
        },
{
    let parts = split_chars(rest, '=');
    proof {
        assert(split_at(rest@, '=').len() == parts.len());
    }
    if parts.len() < 2 {
        return None;
    }
    proof {
        assert(split_at(rest@, '=')[1] == parts@[1]@);
    }
    let keys = parse_key_chars(&strip_chars(&trim_chars(&parts[1]), '"'));
    if keys.len() > 0 {
        proof {
            assert(strokes(keys@)[0] == keys@[0]@);
        }
        Some(keys[0].clone())
    } else {
        None
    }
}

fn read_bare_line(raw: &Vec<char>) -> (r: Vec<char>)
    ensures
        r@ == bare_line(raw@),
{
    let line = trim_chars(raw);
    if line.len() > 0 && line[0] == ':' {
        let rest = sub_chars(&line, 1, line.len());
        proof {
            assert(rest@ =~= line@.drop_first());
        }
        rest
    } else {
        line
    }
}

impl Config {
    fn ignore(&mut self, raw: &Vec<char>)
        ensures
            final(self)@ == (RcFile { ignored: old(self)@.ignored.push(raw@), ..old(self)@ }),
    {
        let line = string_of(raw, 0, raw.len());
        proof {
            assert(line@ =~= raw@);
        }
        let ghost before = texts_of(self.ignored@);
        self.ignored.push(line);
        proof {
            assert(texts_of(self.ignored@) =~= before.push(raw@));
        }
    }

    fn add_source(&mut self, path: &Vec<char>)
        ensures
            final(self)@ == (RcFile { sources: old(self)@.sources.push(path@), ..old(self)@ }),
    {
        let line = string_of(path, 0, path.len());
        proof {
            assert(line@ =~= path@);
        }
        let ghost before = texts_of(self.sources@);
        self.sources.push(line);
        proof {
            assert(texts_of(self.sources@) =~= before.push(path@));
        }
    }

    fn add_settings(&mut self, args: &Vec<char>)
        ensures
            final(self)@ == (RcFile {
                settings: old(self)@.settings + words(args@).map_values(
                    |arg: Seq<char>| choice_of(arg),
                ),
                ..old(self)@
            }),
    {
        let list = split_words(args);
        let ghost all = words(args@).map_values(|arg: Seq<char>| choice_of(arg));
        let ghost before = choices(self.settings@);
        let ghost rc = self@;
        let mut i: usize = 0;
        proof {
            assert(choices(self.settings@) =~= before + all.take(0));
            assert(words(args@).len() == list.len());
        }
        while i < list.len()
            invariant
                i <= list.len(),
                texts(list@) == words(args@),
                words(args@).len() == list.len(),
                all == words(args@).map_values(|arg: Seq<char>| choice_of(arg)),
                choices(self.settings@) == before + all.take(i as int),
                self@ == (RcFile { settings: choices(self.settings@), ..rc }),
            decreases list.len() - i,
        {
            let ghost now = choices(self.settings@);
            let setting = read_setting(&list[i]);
            let ghost seen = setting@;
            self.settings.push(setting);
            proof {
                assert(words(args@)[i as int] == list@[i as int]@);
                assert(all[i as int] == seen);
                assert(choices(self.settings@) =~= now.push(seen));
                assert(all.take(i + 1) =~= all.take(i as int).push(seen));
                assert(choices(self.settings@) =~= before + all.take(i + 1));
            }
            i = i + 1;
        }
        proof {
            assert(all.take(i as int) =~= all);
        }
    }

    fn add_mappings(
        &mut self,
        classes: &Vec<ModeClass>,
        lhs: &Vec<Key>,
        rhs: &Vec<Key>,
        noremap: bool,
    )
        ensures
            final(self)@ == (RcFile {
                mappings: old(self)@.mappings + mappings_for(
                    classes@,
                    strokes(lhs@),
                    strokes(rhs@),
                    noremap,
                ),
                ..old(self)@
            }),
    {
        let ghost all = mappings_for(classes@, strokes(lhs@), strokes(rhs@), noremap);
        let ghost before = map_lines(self.mappings@);
        let ghost rc = self@;
        let mut i: usize = 0;
        proof {
            assert(map_lines(self.mappings@) =~= before + all.take(0));
        }
        while i < classes.len()
            invariant
                i <= classes.len(),
                all == mappings_for(classes@, strokes(lhs@), strokes(rhs@), noremap),
                map_lines(self.mappings@) == before + all.take(i as int),
                self@ == (RcFile { mappings: map_lines(self.mappings@), ..rc }),
            decreases classes.len() - i,
        {
            let ghost now = map_lines(self.mappings@);
            let mapping = ConfigMapping {
                class: classes[i],
                lhs: copy_keys(lhs),
                rhs: copy_keys(rhs),
                noremap,
            };
            let ghost seen = mapping@;
            self.mappings.push(mapping);
            proof {
                assert(all[i as int] == seen);
                assert(map_lines(self.mappings@) =~= now.push(seen));
                assert(all.take(i + 1) =~= all.take(i as int).push(seen));
                assert(map_lines(self.mappings@) =~= before + all.take(i + 1));
            }
            i = i + 1;
        }
        proof {
            assert(all.take(i as int) =~= all);
        }
    }

    fn read_mapping(&mut self, leader: &Key, raw: &Vec<char>, line: &Vec<char>)
        ensures
            final(self)@ == (Reading { rc: old(self)@, leader: leader@ }).mapping(raw@, line@).rc,
            (Reading { rc: old(self)@, leader: leader@ }).mapping(raw@, line@).leader == leader@,
    {
        proof {
            reveal(Reading::mapping);
        }
        let (noremap, classes, args) = match read_map_command(line) {
            Some(parts) => parts,
            None => {
                self.ignore(raw);
                return;
            },
        };
        let (left, right) = match read_sides(&args) {
            Some(parts) => parts,
            None => {
                self.ignore(raw);
                return;
            },
        };
        let lhs = parse_with_leader(&left, leader);
        if lhs.len() == 0 {
            proof {
                assert(strokes(lhs@).len() == 0);
            }
            self.ignore(raw);
            return;
        }
        proof {
            assert(strokes(lhs@).len() == lhs.len());
        }
        let rhs = parse_with_leader(&right, leader);
        self.add_mappings(&classes, &lhs, &rhs, noremap);
    }

    fn read_line(&mut self, leader: Key, raw: &Vec<char>) -> (next: Key)
        ensures
            (Reading { rc: final(self)@, leader: next@ }) == (Reading {
                rc: old(self)@,
                leader: leader@,
            }).line(raw@),
    {
        proof {
            reveal(Reading::line);
        }
        let line = read_bare_line(raw);
        if line.len() == 0 || line[0] == '"' {
            return leader;
        }
        if starts_with(&line, "let mapleader") {
            let n = chars_of("let mapleader").len();
            let rest = sub_chars(&line, n, line.len());
            proof {
                assert(rest@ =~= line@.skip(n as int));
            }
            return match read_leader(&rest) {
                Some(key) => key,
                None => leader,
            };
        }
        if let Some(args) = after_command(&line, "set") {
            self.add_settings(&args);
            return leader;
        }
        if starts_with(&line, "source ") {
            proof {
                reveal_strlit("source ");
                reveal_strlit("source");
            }
            let rest = sub_chars(&line, 6, line.len());
            proof {
                assert(rest@ =~= line@.skip(6));
            }
            self.add_source(&trim_chars(&rest));
            return leader;
        }
        // the :map family — the optional leading `:` was already stripped
        self.read_mapping(&leader, raw, &line);
        leader
    }
}

/// Parse a configuration text. `mapleader` (via `let mapleader = "x"`)
/// affects subsequent `<Leader>` occurrences, like vim.
pub fn parse(text: &str) -> (c: Config)
    ensures
        c@ == parsed_config(text@),
{
    let lines = split_lines(&chars_of(text));
    let ghost all = text_lines(text@);
    let mut config = Config::default();
    let mut leader = Key::char('\\');
    let mut i: usize = 0;
    proof {
        assert(all.take(0) =~= Seq::empty());
        assert(all.len() == lines.len());
    }
    while i < lines.len()
        invariant
            i <= lines.len(),
            texts(lines@) == all,
            all.len() == lines.len(),
            (Reading { rc: config@, leader: leader@ }) == read_lines(all.take(i as int)),
        decreases lines.len() - i,
    {
        proof {
            assert(all.take(i + 1).drop_last() =~= all.take(i as int));
            assert(all.take(i + 1).last() == lines@[i as int]@);
        }
        leader = config.read_line(leader, &lines[i]);
        i = i + 1;
    }
    proof {
        assert(all.take(i as int) =~= all);
    }
    config
}

// ---- applying ------------------------------------------------------------------------------------

impl Options {
    /// The options once a choice is made; nothing when there is no such
    /// option or value.
    pub open spec fn chosen(self, c: Choice) -> Option<Options> {
        match c {
            Choice::On(name) => match flag_of(name) {
                Some(f) => Some(self.with_flag(f, true)),
                None => None,
            },
            Choice::Off(name) => match flag_of(name) {
                Some(f) => Some(self.with_flag(f, false)),
                None => None,
            },
            Choice::Toggle(name) => match flag_of(name) {
                Some(f) => Some(self.with_flag(f, !self.flag(f))),
                None => None,
            },
            Choice::Value(name, value) => if amount_of(name) is Some && is_number(value) {
                Some(
                    self.with_amount(amount_of(name)->0, digits_value(unsigned(value)) as usize),
                )
            } else {
                None
            },
        }
    }

    /// The options once all the choices are made that can be made.
    pub open spec fn chosen_all(self, list: Seq<Choice>) -> Options
        decreases list.len(),
    {
        if list.len() == 0 {
            self
        } else {
            let before = self.chosen_all(list.drop_last());
            match before.chosen(list.last()) {
                Some(o) => o,
                None => before,
            }
        }
    }

    /// How many of the choices can be made.
    pub open spec fn choices_made(self, list: Seq<Choice>) -> int
        decreases list.len(),
    {
        if list.len() == 0 {
            0
        } else {
            self.choices_made(list.drop_last()) + if self.chosen_all(list.drop_last()).chosen(
                list.last(),
            ) is Some {
                1int
            } else {
                0
            }
        }
    }

    /// Makes one choice, if it can be made.
    pub fn apply_setting(&mut self, setting: &Setting) -> (ok: bool)
        ensures
            match old(self).chosen(setting@) {
                Some(o) => ok && *final(self) == o,
                None => !ok && *final(self) == *old(self),
            },
    {
        match setting {
            Setting::On(name) => self.set_boolean(name.as_str(), true),
            Setting::Off(name) => self.set_boolean(name.as_str(), false),
            Setting::Toggle(name) => match self.bool_option(name.as_str()) {
                Some(current) => self.set_boolean(name.as_str(), !current),
                None => false,
            },
            Setting::Value(name, value) => self.set_value(name.as_str(), value.as_str()),
        }
    }
}

impl Maps {
    /// The mappings once all the lines are added.
    pub open spec fn mapped_all(self, list: Seq<MapLine>) -> Maps
        decreases list.len(),
    {
        if list.len() == 0 {
            self
        } else {
            let m = list.last();
            self.mapped_all(list.drop_last()).mapped(
                m.class,
                m.lhs,
                (Rhs { keys: m.rhs, noremap: m.noremap }),
            )
        }
    }
}

impl Vim {
    /// Configured: options set and mappings added.
    pub open spec fn configured(self, rc: RcFile) -> Vim {
        Vim {
            options: self.options.chosen_all(rc.settings),
            keymaps: self.keymaps.mapped_all(rc.mappings),
            ..self
        }
    }
}

impl VimState {
    fn apply_settings(&mut self, settings: &Vec<Setting>) -> (made: usize)
        ensures
            final(self)@ == (Vim {
                options: old(self)@.options.chosen_all(choices(settings@)),
                ..old(self)@
            }),
            made == old(self)@.options.choices_made(choices(settings@)),
            made <= settings.len(),
    {
        let ghost all = choices(settings@);
        let ghost v = self@;
        let mut made: usize = 0;
        let mut i: usize = 0;
        proof {
            assert(all.take(0) =~= Seq::empty());
        }
        while i < settings.len()
            invariant
                made <= i <= settings.len(),
                all == choices(settings@),
                self@ == (Vim { options: v.options.chosen_all(all.take(i as int)), ..v }),
                made == v.options.choices_made(all.take(i as int)),
            decreases settings.len() - i,
        {
            proof {
                assert(all.take(i + 1).drop_last() =~= all.take(i as int));
                assert(all.take(i + 1).last() == settings@[i as int]@);
            }
            if self.options.apply_setting(&settings[i]) {
                made = made + 1;
            }
            i = i + 1;
        }
        proof {
            assert(all.take(i as int) =~= all);
        }
        made
    }

    fn apply_mappings(&mut self, mappings: &Vec<ConfigMapping>)
        ensures
            final(self)@ == (Vim {
                keymaps: old(self)@.keymaps.mapped_all(map_lines(mappings@)),
                ..old(self)@
            }),
    {
        let ghost all = map_lines(mappings@);
        let ghost v = self@;
        let mut i: usize = 0;
        proof {
            assert(all.take(0) =~= Seq::empty());
        }
        while i < mappings.len()
            invariant
                i <= mappings.len(),
                all == map_lines(mappings@),
                self@ == (Vim { keymaps: v.keymaps.mapped_all(all.take(i as int)), ..v }),
            decreases mappings.len() - i,
        {
            proof {
                assert(all.take(i + 1).drop_last() =~= all.take(i as int));
                assert(all.take(i + 1).last() == mappings@[i as int]@);
            }
            let m = &mappings[i];
            self.keymaps.map(m.class, m.lhs.as_slice(), copy_keys(&m.rhs), m.noremap);
            i = i + 1;
        }
        proof {
            assert(all.take(i as int) =~= all);
        }
    }

    /// Apply a parsed user config (`~/.gpui-vimrc` style): options via the
    /// `:set` machinery, mappings into the per-mode mapping tables.
    pub fn apply_config(&mut self, config: &Config) -> (stats: ConfigStats)
        ensures
            final(self)@ == old(self)@.configured(config@),
            stats.options == old(self)@.options.choices_made(config@.settings),
            stats.mappings == config@.mappings.len(),
            stats.ignored == min(
                config@.settings.len() - stats.options + config@.ignored.len(),
                usize::MAX as int,
            ),
    {
        let made = self.apply_settings(&config.settings);
        self.apply_mappings(&config.mappings);
        ConfigStats {
            options: made,
            mappings: config.mappings.len(),
            ignored: plus(config.settings.len() - made, config.ignored.len()),
        }
    }
}

} // verus!
