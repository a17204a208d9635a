//! What the lines of a configuration file mean.
use crate::chars::white;
use crate::config::{
    after_word, bare_line, choice_of, map_command, mappings_for, no_config, parsed_config,
    read_lines, sides, with_leader, Choice, MapLine, RcFile, Reading,
};
use crate::key::{
    angle, char_stroke, group_len, named_stroke, parsed_sequence, plain_sequence, through_close,
    Kind, Stroke,
};
use crate::keymap::ModeClass;
use crate::options::flag_of;
use crate::strs::{
    ascii_lower, first_index, has_prefix, lemma_first_index, lemma_split_at, lemma_word_len,
    split_at, stripped, text_lines, trim_back, trim_front, trimmed, word_len, words,
};
use vstd::prelude::*;

verus! {

/// A text without white space and without special keys.
pub open spec fn plain_side(s: Seq<char>) -> bool {
    s.len() > 0 && forall|i: int| 0 <= i < s.len() ==> !white(#[trigger] s[i]) && s[i] != '<'
}

/// The keys that type a text.
pub open spec fn typed_keys(s: Seq<char>) -> Seq<Stroke> {
    s.map_values(|c: char| char_stroke(c))
}

/// The line that maps `l` to `r` by the command `cmd`.
pub open spec fn map_text(cmd: Seq<char>, l: Seq<char>, r: Seq<char>) -> Seq<char> {
    cmd + seq![' '] + l + seq![' '] + r
}

/// `rc` with one mapping more for each of the tables `classes`.
pub open spec fn with_mappings(
    rc: RcFile,
    classes: Seq<ModeClass>,
    l: Seq<char>,
    r: Seq<char>,
    noremap: bool,
) -> RcFile {
    RcFile {
        mappings: rc.mappings + classes.map_values(
            |class: ModeClass|
                MapLine { class, lhs: typed_keys(l), rhs: typed_keys(r), noremap },
        ),
        ..rc
    }
}

/// The command `cmd` maps in the tables `classes`, with remapping or without.
pub open spec fn maps_in(
    rd: Reading,
    cmd: Seq<char>,
    classes: Seq<ModeClass>,
    noremap: bool,
    l: Seq<char>,
    r: Seq<char>,
) -> bool {
    rd.line(map_text(cmd, l, r)) == (Reading {
        rc: with_mappings(rd.rc, classes, l, r, noremap),
        leader: rd.leader,
    })
}

proof fn lemma_differs(s: Seq<char>, p: Seq<char>, i: int)
    requires
        0 <= i < s.len(),
        i < p.len(),
        s[i] != p[i],
    ensures
        !has_prefix(s, p),
        after_word(s, p) is None,
{
    if has_prefix(s, p) {
        assert(s.take(p.len() as int)[i] == s[i]);
    }
}

proof fn lemma_after_word(cmd: Seq<char>, rest: Seq<char>)
    requires
        rest.len() == 0 || rest[0] == ' ',
    ensures
        has_prefix(cmd + rest, cmd),
        after_word(cmd + rest, cmd) == Some(rest),
{
    assert((cmd + rest).take(cmd.len() as int) =~= cmd);
    assert((cmd + rest).skip(cmd.len() as int) =~= rest);
}

/// A text without a newline is one line.
proof fn lemma_reads_one_line(s: Seq<char>)
    requires
        s.len() > 0,
        forall|i: int| 0 <= i < s.len() ==> #[trigger] s[i] != '\n',
    ensures
        text_lines(s) == seq![s],
        parsed_config(s) == read_lines(Seq::empty()).line(s).rc,
{
    lemma_one_part(s, '\n');
    let parts = seq![s];
    assert(text_lines(s) =~= seq![s]);
    assert(text_lines(s).drop_last() =~= Seq::empty());
}

proof fn lemma_trimmed(s: Seq<char>)
    requires
        s.len() > 0,
        !white(s[0]),
        !white(s.last()),
    ensures
        trimmed(s) == s,
        s[0] != ':' ==> bare_line(s) == s,
{
    assert(trim_front(s) == s);
    assert(trim_back(s) == s);
}

proof fn lemma_first_is(s: Seq<char>, c: char, n: int)
    requires
        0 <= n < s.len(),
        s[n] == c,
        forall|i: int| 0 <= i < n ==> #[trigger] s[i] != c,
    ensures
        first_index(s, c) == n,
{
    lemma_first_index(s, c);
}

proof fn lemma_sides(l: Seq<char>, r: Seq<char>)
    requires
        plain_side(l),
        plain_side(r),
    ensures
        sides(seq![' '] + l + seq![' '] + r) == Some((l, r)),
{
    lemma_any_sides(l, r);
}

proof fn lemma_any_sides(l: Seq<char>, r: Seq<char>)
    requires
        l.len() > 0,
        forall|i: int| 0 <= i < l.len() ==> !white(#[trigger] l[i]),
        plain_side(r),
    ensures
        sides(seq![' '] + l + seq![' '] + r) == Some((l, r)),
{
    let args = seq![' '] + l + seq![' '] + r;
    let text = l + seq![' '] + r;
    assert(args.drop_first() =~= text);
    assert(text[0] == l[0]);
    assert(trim_front(text) == text);
    assert(trim_front(args) == text);
    assert forall|i: int| 0 <= i < l.len() implies #[trigger] text[i] != ' ' by {
        assert(text[i] == l[i]);
    }
    lemma_first_is(text, ' ', l.len() as int);
    assert(text.take(l.len() as int) =~= l);
    assert(text.skip(l.len() as int + 1) =~= r);
    assert(!white(r[0]));
    assert(!white(r[r.len() - 1]));
    lemma_trimmed(r);
}

proof fn lemma_plain_keys(s: Seq<char>, leader: Stroke)
    requires
        plain_side(s),
    ensures
        with_leader(parsed_sequence(s), leader) == typed_keys(s),
{
    plain_sequence(s);
    let keys = parsed_sequence(s);
    assert forall|i: int| 0 <= i < s.len() implies with_leader(keys, leader)[i] == typed_keys(
        s,
    )[i] by {
        assert(keys[i] == char_stroke(s[i]));
        assert(keys[i].kind == Kind::Char(s[i]));
    }
    assert(with_leader(keys, leader) =~= typed_keys(s));
}

/// What a line of the `:map` family does once its command is understood.
proof fn lemma_maps(
    rd: Reading,
    cmd: Seq<char>,
    classes: Seq<ModeClass>,
    noremap: bool,
    l: Seq<char>,
    r: Seq<char>,
)
    requires
        plain_side(l),
        plain_side(r),
        cmd.len() > 0,
        cmd[0] == 'n' || cmd[0] == 'v' || cmd[0] == 'i' || cmd[0] == 'm',
        map_command(map_text(cmd, l, r)) == Some((noremap, classes, seq![' '] + l + seq![' '] + r)),
    ensures
        maps_in(rd, cmd, classes, noremap, l, r),
{
    let line = map_text(cmd, l, r);
    reveal(Reading::line);
    reveal(Reading::mapping);
    reveal_strlit("let mapleader");
    reveal_strlit("set");
    reveal_strlit("source ");
    assert(line[0] == cmd[0]);
    assert(line.last() == r[r.len() - 1]);
    assert(!white(r[r.len() - 1]));
    assert(!white(line[0]));
    lemma_trimmed(line);
    lemma_differs(line, "let mapleader"@, 0);
    lemma_differs(line, "set"@, 0);
    lemma_differs(line, "source "@, 0);
    lemma_sides(l, r);
    lemma_plain_keys(l, rd.leader);
    lemma_plain_keys(r, rd.leader);
    assert(mappings_for(classes, typed_keys(l), typed_keys(r), noremap)
        =~= classes.map_values(
        |class: ModeClass| MapLine { class, lhs: typed_keys(l), rhs: typed_keys(r), noremap },
    ));
}

/// The first letter of a command of the `:map` family names the table that it
/// maps in: `n` the Normal, `v` the Visual and `i` the Insert mappings. Without
/// a letter it maps in Normal and in Visual mode.
pub proof fn the_letter_names_the_table(rd: Reading, l: Seq<char>, r: Seq<char>)
    requires
        plain_side(l),
        plain_side(r),
    ensures
        maps_in(rd, "nmap"@, seq![ModeClass::Normal], false, l, r),
        maps_in(rd, "vmap"@, seq![ModeClass::Visual], false, l, r),
        maps_in(rd, "imap"@, seq![ModeClass::Insert], false, l, r),
        maps_in(rd, "map"@, seq![ModeClass::Normal, ModeClass::Visual], false, l, r),
        maps_in(rd, "nnoremap"@, seq![ModeClass::Normal], true, l, r),
        maps_in(rd, "vnoremap"@, seq![ModeClass::Visual], true, l, r),
        maps_in(rd, "inoremap"@, seq![ModeClass::Insert], true, l, r),
        maps_in(rd, "noremap"@, seq![ModeClass::Normal, ModeClass::Visual], true, l, r),
{
    reveal_strlit("noremap");
    reveal_strlit("nnoremap");
    reveal_strlit("vnoremap");
    reveal_strlit("inoremap");
    reveal_strlit("nmap");
    reveal_strlit("vmap");
    reveal_strlit("imap");
    reveal_strlit("map");
    let rest = seq![' '] + l + seq![' '] + r;
    let both = seq![ModeClass::Normal, ModeClass::Visual];
    assert forall|cmd: Seq<char>| #[trigger] map_text(cmd, l, r) == cmd + rest by {
        assert(map_text(cmd, l, r) =~= cmd + rest);
    }
    {
        let s = map_text("noremap"@, l, r);
        lemma_after_word("noremap"@, rest);
        assert(map_command(s) == Some((true, both, rest)));
        lemma_maps(rd, "noremap"@, both, true, l, r);
    }
    {
        let s = map_text("nnoremap"@, l, r);
        lemma_after_word("nnoremap"@, rest);
        lemma_differs(s, "noremap"@, 1);
        lemma_maps(rd, "nnoremap"@, seq![ModeClass::Normal], true, l, r);
    }
    {
        let s = map_text("vnoremap"@, l, r);
        lemma_after_word("vnoremap"@, rest);
        lemma_differs(s, "noremap"@, 0);
        lemma_differs(s, "nnoremap"@, 0);
        lemma_maps(rd, "vnoremap"@, seq![ModeClass::Visual], true, l, r);
    }
    {
        let s = map_text("inoremap"@, l, r);
        lemma_after_word("inoremap"@, rest);
        lemma_differs(s, "noremap"@, 0);
        lemma_differs(s, "nnoremap"@, 0);
        lemma_differs(s, "vnoremap"@, 0);
        lemma_maps(rd, "inoremap"@, seq![ModeClass::Insert], true, l, r);
    }
    {
        let s = map_text("nmap"@, l, r);
        lemma_after_word("nmap"@, rest);
        lemma_differs(s, "noremap"@, 1);
        lemma_differs(s, "nnoremap"@, 1);
        lemma_differs(s, "vnoremap"@, 0);
        lemma_differs(s, "inoremap"@, 0);
        lemma_maps(rd, "nmap"@, seq![ModeClass::Normal], false, l, r);
    }
    {
        let s = map_text("vmap"@, l, r);
        lemma_after_word("vmap"@, rest);
        lemma_differs(s, "noremap"@, 0);
        lemma_differs(s, "nnoremap"@, 0);
        lemma_differs(s, "vnoremap"@, 1);
        lemma_differs(s, "inoremap"@, 0);
        lemma_differs(s, "nmap"@, 0);
        lemma_maps(rd, "vmap"@, seq![ModeClass::Visual], false, l, r);
    }
    {
        let s = map_text("imap"@, l, r);
        lemma_after_word("imap"@, rest);
        lemma_differs(s, "noremap"@, 0);
        lemma_differs(s, "nnoremap"@, 0);
        lemma_differs(s, "vnoremap"@, 0);
        lemma_differs(s, "inoremap"@, 1);
        lemma_differs(s, "nmap"@, 0);
        lemma_differs(s, "vmap"@, 0);
        lemma_maps(rd, "imap"@, seq![ModeClass::Insert], false, l, r);
    }
    {
        let s = map_text("map"@, l, r);
        lemma_after_word("map"@, rest);
        lemma_differs(s, "noremap"@, 0);
        lemma_differs(s, "nnoremap"@, 0);
        lemma_differs(s, "vnoremap"@, 0);
        lemma_differs(s, "inoremap"@, 0);
        lemma_differs(s, "nmap"@, 0);
        lemma_differs(s, "vmap"@, 0);
        lemma_differs(s, "imap"@, 0);
        lemma_maps(rd, "map"@, both, false, l, r);
    }
}

proof fn lemma_leader_group(s: Seq<char>)
    ensures
        parsed_sequence("<leader>"@ + s) == seq![named_stroke("leader"@)] + parsed_sequence(s),
{
    reveal_strlit("<leader>");
    reveal_strlit("leader");
    let t = "<leader>"@ + s;
    let rest = t.drop_first();
    lemma_through(rest, 6);
    assert(group_len(t) == 8);
    assert(t.take(8) =~= "<leader>"@);
    assert(t.skip(8) =~= s);
    let inner = "<leader>"@.subrange(1, 7);
    assert(inner =~= "leader"@);
    assert(ascii_lower(inner) =~= "leader"@);
    lemma_leader_is_no_key();
}

proof fn lemma_through(s: Seq<char>, n: int)
    requires
        0 <= n < s.len(),
        s[n] == '>',
        forall|i: int| 0 <= i < n ==> #[trigger] s[i] != '>',
    ensures
        through_close(s) == n + 1,
    decreases n,
{
    if n > 0 {
        let t = s.drop_first();
        assert(s[0] != '>');
        assert forall|i: int| 0 <= i < n - 1 implies #[trigger] t[i] != '>' by {
            assert(t[i] == s[i + 1]);
        }
        lemma_through(t, n - 1);
    }
}

proof fn lemma_leader_is_no_key()
    ensures
        angle("leader"@) == named_stroke("leader"@),
{
    reveal_strlit("leader");
    reveal_strlit("C-");
    reveal_strlit("esc");
    reveal_strlit("cr");
    reveal_strlit("return");
    reveal_strlit("enter");
    reveal_strlit("bs");
    reveal_strlit("del");
    reveal_strlit("space");
    reveal_strlit("tab");
    reveal_strlit("lt");
    reveal_strlit("bar");
    let s = "leader"@;
    assert(ascii_lower(s) =~= s);
    assert(!has_prefix(s, "C-"@)) by {
        if has_prefix(s, "C-"@) {
            assert(s.take(2)[0] == 'l');
        }
    }
    assert(s[0] == 'l' && s.len() == 6);
    assert("return"@[0] == 'r');
}

/// `<leader>` on the left side of a mapping is the leader of that point of the
/// file.
pub proof fn the_leader_stands_for_its_key(rd: Reading, l: Seq<char>, r: Seq<char>)
    requires
        l.len() == 0 || plain_side(l),
        plain_side(r),
    ensures
        rd.line(map_text("nmap"@, "<leader>"@ + l, r)) == (Reading {
            rc: RcFile {
                mappings: rd.rc.mappings.push(
                    MapLine {
                        class: ModeClass::Normal,
                        lhs: seq![rd.leader] + typed_keys(l),
                        rhs: typed_keys(r),
                        noremap: false,
                    },
                ),
                ..rd.rc
            },
            leader: rd.leader,
        }),
{
    reveal_strlit("<leader>");
    reveal_strlit("nmap");
    reveal_strlit("noremap");
    reveal_strlit("nnoremap");
    reveal_strlit("vnoremap");
    reveal_strlit("inoremap");
    reveal_strlit("let mapleader");
    reveal_strlit("set");
    reveal_strlit("source ");
    reveal(Reading::line);
    reveal(Reading::mapping);
    let lead = "<leader>"@ + l;
    let line = map_text("nmap"@, lead, r);
    let rest = seq![' '] + lead + seq![' '] + r;
    assert(line =~= "nmap"@ + rest);
    assert forall|i: int| 0 <= i < lead.len() implies !white(#[trigger] lead[i]) by {
        if i >= 8 {
            assert(lead[i] == l[i - 8]);
        }
    }
    lemma_after_word("nmap"@, rest);
    lemma_differs(line, "noremap"@, 1);
    lemma_differs(line, "nnoremap"@, 1);
    lemma_differs(line, "vnoremap"@, 0);
    lemma_differs(line, "inoremap"@, 0);
    assert(line.last() == r[r.len() - 1]);
    lemma_trimmed(line);
    lemma_differs(line, "let mapleader"@, 0);
    lemma_differs(line, "set"@, 0);
    lemma_differs(line, "source "@, 0);
    lemma_any_sides(lead, r);
    lemma_leader_group(l);
    lemma_plain_keys(r, rd.leader);
    if l.len() > 0 {
        plain_sequence(l);
    } else {
        assert(parsed_sequence(l) =~= Seq::<Stroke>::empty());
    }
    let keys = parsed_sequence(lead);
    assert(keys =~= seq![named_stroke("leader"@)] + typed_keys(l));
    let lhs = with_leader(keys, rd.leader);
    assert forall|i: int| 0 <= i < lhs.len() implies lhs[i] == (seq![rd.leader] + typed_keys(
        l,
    ))[i] by {
        if i > 0 {
            assert(keys[i] == char_stroke(l[i - 1]));
            assert(keys[i].kind == Kind::Char(l[i - 1]));
        }
    }
    assert(lhs =~= seq![rd.leader] + typed_keys(l));
    let m = MapLine {
        class: ModeClass::Normal,
        lhs,
        rhs: typed_keys(r),
        noremap: false,
    };
    assert(mappings_for(seq![ModeClass::Normal], lhs, typed_keys(r), false) =~= seq![m]);
    assert(rd.rc.mappings + seq![m] =~= rd.rc.mappings.push(m));
}

/// `let mapleader = "x"` makes `x` the leader from there on, and says nothing
/// else.
pub proof fn the_leader_is_named(rd: Reading, c: char)
    requires
        !white(c),
        c != '"',
        c != '=',
        c != '<',
    ensures
        rd.line("let mapleader = \""@ + seq![c, '"']) == (Reading {
            rc: rd.rc,
            leader: char_stroke(c),
        }),
{
    reveal(Reading::line);
    reveal_strlit("let mapleader = \"");
    reveal_strlit("let mapleader");
    let line = "let mapleader = \""@ + seq![c, '"'];
    assert(line[0] == 'l');
    assert(line.last() == '"');
    assert(!white('"'));
    lemma_trimmed(line);
    assert(line.take("let mapleader"@.len() as int) =~= "let mapleader"@);
    let rest = line.skip("let mapleader"@.len() as int);
    let value = seq![' ', '"', c, '"'];
    assert(rest =~= seq![' ', '='] + value);
    assert forall|i: int| 0 <= i < value.len() implies #[trigger] value[i] != '=' by {}
    lemma_two_parts(seq![' '], value);
    assert(seq![' '] + seq!['='] + value =~= rest);
    let quoted = seq!['"', c, '"'];
    assert(value.drop_first() =~= quoted);
    assert(trim_front(quoted) == quoted);
    assert(trim_back(quoted) == quoted);
    assert(trimmed(value) == quoted);
    assert(quoted.drop_first() =~= seq![c, '"']);
    assert(seq![c, '"'].drop_last() =~= seq![c]);
    assert(stripped(seq![c], '"') == seq![c]);
    assert(stripped(seq![c, '"'], '"') == seq![c]);
    assert(stripped(quoted, '"') == seq![c]);
    plain_sequence(seq![c]);
}

proof fn lemma_two_parts(a: Seq<char>, b: Seq<char>)
    requires
        forall|i: int| 0 <= i < a.len() ==> #[trigger] a[i] != '=',
        forall|i: int| 0 <= i < b.len() ==> #[trigger] b[i] != '=',
    ensures
        split_at(a + seq!['='] + b, '=') == seq![a, b],
    decreases b.len(),
{
    let s = a + seq!['='] + b;
    if b.len() == 0 {
        assert(s.drop_last() =~= a);
        lemma_one_part(a, '=');
        assert(b =~= Seq::empty());
        assert(split_at(s, '=') =~= seq![a, b]);
    } else {
        let less = b.drop_last();
        assert(s.drop_last() =~= a + seq!['='] + less);
        lemma_two_parts(a, less);
        assert(s.last() == b.last());
        assert(less.push(b.last()) =~= b);
        assert(seq![a, less].drop_last().push(b) =~= seq![a, b]);
    }
}

proof fn lemma_one_part(s: Seq<char>, c: char)
    requires
        forall|i: int| 0 <= i < s.len() ==> #[trigger] s[i] != c,
    ensures
        split_at(s, c) == seq![s],
    decreases s.len(),
{
    if s.len() > 0 {
        lemma_one_part(s.drop_last(), c);
        let parts = seq![s.drop_last()];
        assert(s.drop_last().push(s.last()) =~= s);
        assert(parts.drop_last().push(parts.last().push(s.last())) =~= seq![s]);
    } else {
        assert(s =~= Seq::empty());
        assert(split_at(s, c) =~= seq![s]);
    }
}

/// A file of one line says what that line says.
pub proof fn a_file_of_one_mapping(l: Seq<char>, r: Seq<char>)
    requires
        plain_side(l),
        plain_side(r),
    ensures
        ({
            let none = no_config();
            let one = |class: ModeClass, noremap: bool|
                with_mappings(none, seq![class], l, r, noremap);
            &&& parsed_config(map_text("nmap"@, l, r)) == one(ModeClass::Normal, false)
            &&& parsed_config(map_text("vmap"@, l, r)) == one(ModeClass::Visual, false)
            &&& parsed_config(map_text("imap"@, l, r)) == one(ModeClass::Insert, false)
            &&& parsed_config(map_text("nnoremap"@, l, r)) == one(ModeClass::Normal, true)
            &&& parsed_config(map_text("vnoremap"@, l, r)) == one(ModeClass::Visual, true)
            &&& parsed_config(map_text("inoremap"@, l, r)) == one(ModeClass::Insert, true)
        }),
{
    reveal_strlit("nnoremap");
    reveal_strlit("vnoremap");
    reveal_strlit("inoremap");
    reveal_strlit("nmap");
    reveal_strlit("vmap");
    reveal_strlit("imap");
    let rd = read_lines(Seq::empty());
    the_letter_names_the_table(rd, l, r);
    lemma_map_text_is_a_line("nmap"@, l, r);
    lemma_map_text_is_a_line("vmap"@, l, r);
    lemma_map_text_is_a_line("imap"@, l, r);
    lemma_map_text_is_a_line("nnoremap"@, l, r);
    lemma_map_text_is_a_line("vnoremap"@, l, r);
    lemma_map_text_is_a_line("inoremap"@, l, r);
}

proof fn lemma_map_text_is_a_line(cmd: Seq<char>, l: Seq<char>, r: Seq<char>)
    requires
        plain_side(l),
        plain_side(r),
        forall|i: int| 0 <= i < cmd.len() ==> #[trigger] cmd[i] != '\n',
    ensures
        parsed_config(map_text(cmd, l, r)) == read_lines(Seq::empty()).line(
            map_text(cmd, l, r),
        ).rc,
{
    let s = map_text(cmd, l, r);
    assert forall|i: int| 0 <= i < s.len() implies #[trigger] s[i] != '\n' by {
        if i < cmd.len() {
            assert(s[i] == cmd[i]);
        } else if cmd.len() < i < cmd.len() + 1 + l.len() {
            assert(s[i] == l[i - cmd.len() - 1]);
        } else if i > cmd.len() + 1 + l.len() {
            assert(s[i] == r[i - cmd.len() - 2 - l.len()]);
        }
    }
    lemma_reads_one_line(s);
}

proof fn lemma_last_part(text: Seq<char>, line: Seq<char>)
    requires
        split_at(text, '\n').last().len() == 0,
        split_at(text, '\n').len() > 0,
        forall|i: int| 0 <= i < line.len() ==> #[trigger] line[i] != '\n',
    ensures
        split_at(text + line, '\n') == split_at(text, '\n').drop_last().push(line),
    decreases line.len(),
{
    let parts = split_at(text, '\n');
    if line.len() == 0 {
        assert(text + line =~= text);
        assert(parts.last() =~= line);
        assert(parts.drop_last().push(line) =~= parts);
    } else {
        let less = line.drop_last();
        assert((text + line).drop_last() =~= text + less);
        lemma_last_part(text, less);
        let before = parts.drop_last().push(less);
        assert(line.last() != '\n');
        assert(before.drop_last() =~= parts.drop_last());
        assert(less.push(line.last()) =~= line);
    }
}

/// Lines are read in order, each one with what the lines before it said.
pub proof fn lines_are_read_in_order(text: Seq<char>, line: Seq<char>)
    requires
        text.len() == 0 || text.last() == '\n',
        line.len() > 0,
        forall|i: int| 0 <= i < line.len() ==> #[trigger] line[i] != '\n',
    ensures
        read_lines(text_lines(text + line)) == read_lines(text_lines(text)).line(line),
        parsed_config(text + line) == read_lines(text_lines(text)).line(line).rc,
{
    lemma_split_at(text, '\n');
    let parts = split_at(text, '\n');
    if text.len() > 0 {
        assert(parts.last().len() == 0);
    }
    lemma_last_part(text, line);
    assert(text_lines(text + line) =~= text_lines(text).push(line)) by {
        assert(split_at(text + line, '\n').drop_last() =~= parts.drop_last());
    }
    assert(text_lines(text).push(line).drop_last() =~= text_lines(text));
}

/// A blank line and a line that begins with a quotation mark say nothing.
pub proof fn comments_say_nothing(rd: Reading, s: Seq<char>)
    requires
        trimmed(s).len() == 0 || trimmed(s)[0] == '"',
    ensures
        rd.line(s) == rd,
{
    reveal(Reading::line);
}

/// A colon before a command makes no difference to what it sets, maps and
/// sources.
pub proof fn a_colon_makes_no_difference(rd: Reading, s: Seq<char>)
    requires
        s.len() > 0,
        !white(s[0]),
        !white(s.last()),
        s[0] != ':',
    ensures
        rd.line(seq![':'] + s).leader == rd.line(s).leader,
        rd.line(seq![':'] + s).rc.settings == rd.line(s).rc.settings,
        rd.line(seq![':'] + s).rc.mappings == rd.line(s).rc.mappings,
        rd.line(seq![':'] + s).rc.sources == rd.line(s).rc.sources,
        rd.line(seq![':'] + s).rc.ignored.len() == rd.line(s).rc.ignored.len(),
{
    reveal(Reading::line);
    reveal(Reading::mapping);
    let t = seq![':'] + s;
    assert(t.last() == s.last());
    lemma_trimmed(s);
    assert(trim_front(t) == t);
    assert(trim_back(t) == t);
    assert(t.drop_first() =~= s);
}

/// A line of `set` with one argument makes the choice that the argument spells:
/// `name=value` gives a value, `name!` turns an option over, `no` before the
/// name of a boolean option turns it off, and a name alone turns it on.
pub proof fn set_makes_its_choice(rd: Reading, name: Seq<char>, value: Seq<char>)
    requires
        plain_name(name),
        forall|i: int| 0 <= i < value.len() ==> !white(#[trigger] value[i]),
    ensures
        sets(rd, name + seq!['='] + value, Choice::Value(name, value)),
        sets(rd, name + seq!['!'], Choice::Toggle(name)),
        flag_of(name) is Some ==> sets(rd, "no"@ + name, Choice::Off(name)),
        !has_prefix(name, "no"@) ==> sets(rd, name, Choice::On(name)),
        flag_of(name) is Some && flag_of(name.skip(2)) is None ==> sets(rd, name, Choice::On(name)),
{
    reveal_strlit("no");
    let v = name + seq!['='] + value;
    assert forall|i: int| 0 <= i < name.len() implies #[trigger] v[i] != '=' by {
        assert(v[i] == name[i]);
    }
    lemma_first_is(v, '=', name.len() as int);
    assert(v.take(name.len() as int) =~= name);
    assert(v.skip(name.len() as int + 1) =~= value);
    assert forall|i: int| 0 <= i < v.len() implies !white(#[trigger] v[i]) by {
        if i < name.len() {
            assert(v[i] == name[i]);
        } else if i > name.len() {
            assert(v[i] == value[i - name.len() - 1]);
        }
    }
    lemma_sets(rd, v);
    let t = name + seq!['!'];
    assert(t.drop_last() =~= name);
    lemma_no_equals(t);
    lemma_sets(rd, t);
    let n = "no"@ + name;
    assert(n.skip(2) =~= name);
    assert(n.take(2) =~= "no"@);
    assert forall|i: int| 0 <= i < n.len() implies #[trigger] n[i] != '=' && !white(n[i]) by {
        if i >= 2 {
            assert(n[i] == name[i - 2]);
        }
    }
    assert(n.last() == name[name.len() - 1]);
    lemma_no_equals(n);
    lemma_sets(rd, n);
    assert(name.last() == name[name.len() - 1]);
    lemma_no_equals(name);
    lemma_sets(rd, name);
}

/// The name of an option: no white space, equals sign or exclamation mark.
pub open spec fn plain_name(s: Seq<char>) -> bool {
    s.len() > 0 && forall|i: int|
        0 <= i < s.len() ==> !white(#[trigger] s[i]) && s[i] != '=' && s[i] != '!'
}

/// The line `set arg` makes the choice `c` behind those made before.
pub open spec fn sets(rd: Reading, arg: Seq<char>, c: Choice) -> bool {
    rd.line("set "@ + arg) == (Reading {
        rc: RcFile { settings: rd.rc.settings.push(c), ..rd.rc },
        leader: rd.leader,
    })
}

proof fn lemma_no_equals(s: Seq<char>)
    requires
        forall|i: int| 0 <= i < s.len() ==> #[trigger] s[i] != '=',
    ensures
        first_index(s, '=') == s.len(),
{
    lemma_first_index(s, '=');
}

proof fn lemma_sets(rd: Reading, arg: Seq<char>)
    requires
        arg.len() > 0,
        forall|i: int| 0 <= i < arg.len() ==> !white(#[trigger] arg[i]),
    ensures
        sets(rd, arg, choice_of(arg)),
{
    reveal(Reading::line);
    reveal_strlit("set ");
    reveal_strlit("set");
    reveal_strlit("let mapleader");
    let line = "set "@ + arg;
    let rest = seq![' '] + arg;
    assert(line =~= "set"@ + rest);
    assert(line.last() == arg[arg.len() - 1]);
    lemma_trimmed(line);
    lemma_differs(line, "let mapleader"@, 0);
    lemma_after_word("set"@, rest);
    lemma_one_word(arg);
    assert(rest.drop_first() =~= arg);
    assert(words(rest) == seq![arg]);
    assert(words(rest).map_values(|arg: Seq<char>| choice_of(arg)) =~= seq![choice_of(arg)]);
    assert(rd.rc.settings + seq![choice_of(arg)] =~= rd.rc.settings.push(choice_of(arg)));
}

proof fn lemma_one_word(s: Seq<char>)
    requires
        s.len() > 0,
        forall|i: int| 0 <= i < s.len() ==> !white(#[trigger] s[i]),
    ensures
        words(s) == seq![s],
{
    lemma_word_len(s);
    assert(word_len(s) == s.len());
    assert(s.take(s.len() as int) =~= s);
    assert(s.skip(s.len() as int) =~= Seq::empty());
    assert(words(s.skip(s.len() as int)) =~= Seq::<Seq<char>>::empty());
    assert(words(s) =~= seq![s]);
}

/// `source` notes the path behind it and nothing else.
pub proof fn source_notes_its_path(rd: Reading, path: Seq<char>)
    requires
        path.len() > 0,
        !white(path[0]),
        !white(path.last()),
    ensures
        rd.line("source "@ + path) == (Reading {
            rc: RcFile { sources: rd.rc.sources.push(path), ..rd.rc },
            leader: rd.leader,
        }),
{
    reveal(Reading::line);
    reveal_strlit("source ");
    reveal_strlit("source");
    reveal_strlit("set");
    reveal_strlit("let mapleader");
    let line = "source "@ + path;
    assert(line.last() == path.last());
    lemma_trimmed(line);
    lemma_differs(line, "let mapleader"@, 0);
    lemma_differs(line, "set"@, 1);
    assert(line.take("source "@.len() as int) =~= "source "@);
    let rest = line.skip("source"@.len() as int);
    assert(rest =~= seq![' '] + path);
    assert(rest.drop_first() =~= path);
    assert(trim_front(path) == path);
    assert(trim_back(path) == path);
    assert(trim_front(rest) == path);
}

/// No line takes back what was read before: each one adds to one list at most,
/// and a line that is not understood is noted as it stands.
pub proof fn a_line_takes_nothing_back(rd: Reading, raw: Seq<char>)
    ensures
        rd.rc.settings.is_prefix_of(rd.line(raw).rc.settings),
        rd.rc.mappings.is_prefix_of(rd.line(raw).rc.mappings),
        rd.rc.sources.is_prefix_of(rd.line(raw).rc.sources),
        rd.line(raw).rc.ignored == rd.rc.ignored || rd.line(raw) == (Reading {
            rc: RcFile { ignored: rd.rc.ignored.push(raw), ..rd.rc },
            leader: rd.leader,
        }),
        rd.line(raw).leader == rd.leader || rd.line(raw).rc == rd.rc,
{
    reveal(Reading::line);
    reveal(Reading::mapping);
}

/// A mapping without a right side is not understood: the line is noted as it
/// stands and nothing is mapped.
pub proof fn a_mapping_needs_two_sides(rd: Reading, l: Seq<char>)
    requires
        plain_side(l),
    ensures
        rd.line("nmap "@ + l) == (Reading {
            rc: RcFile { ignored: rd.rc.ignored.push("nmap "@ + l), ..rd.rc },
            leader: rd.leader,
        }),
{
    reveal_strlit("nmap ");
    reveal_strlit("nmap");
    reveal_strlit("noremap");
    reveal_strlit("nnoremap");
    reveal_strlit("vnoremap");
    reveal_strlit("inoremap");
    reveal_strlit("let mapleader");
    reveal_strlit("set");
    reveal_strlit("source ");
    reveal(Reading::line);
    reveal(Reading::mapping);
    let line = "nmap "@ + l;
    let rest = seq![' '] + l;
    assert(line =~= "nmap"@ + rest);
    assert(line.last() == l[l.len() - 1]);
    lemma_trimmed(line);
    lemma_differs(line, "let mapleader"@, 0);
    lemma_differs(line, "set"@, 0);
    lemma_differs(line, "source "@, 0);
    lemma_after_word("nmap"@, rest);
    lemma_differs(line, "noremap"@, 1);
    lemma_differs(line, "nnoremap"@, 1);
    lemma_differs(line, "vnoremap"@, 0);
    lemma_differs(line, "inoremap"@, 0);
    assert(rest.drop_first() =~= l);
    assert(trim_front(l) == l);
    assert(trim_front(rest) == l);
    lemma_first_index(l, ' ');
    assert(first_index(l, ' ') == l.len()) by {
        let n = first_index(l, ' ');
        if n < l.len() {
            assert(!white(l[n]));
        }
    }
}

/// A line that begins with no command that is known is noted as it stands.
pub proof fn other_lines_are_noted(rd: Reading, raw: Seq<char>)
    requires
        raw.len() > 0,
        'A' <= raw[0] <= 'Z',
        !white(raw.last()),
    ensures
        rd.line(raw) == (Reading {
            rc: RcFile { ignored: rd.rc.ignored.push(raw), ..rd.rc },
            leader: rd.leader,
        }),
{
    reveal_strlit("let mapleader");
    reveal_strlit("set");
    reveal_strlit("source ");
    reveal_strlit("noremap");
    reveal_strlit("nnoremap");
    reveal_strlit("vnoremap");
    reveal_strlit("inoremap");
    reveal_strlit("nmap");
    reveal_strlit("vmap");
    reveal_strlit("imap");
    reveal_strlit("map");
    reveal(Reading::line);
    reveal(Reading::mapping);
    assert(!white(raw[0]));
    lemma_trimmed(raw);
    lemma_differs(raw, "let mapleader"@, 0);
    lemma_differs(raw, "set"@, 0);
    lemma_differs(raw, "source "@, 0);
    lemma_differs(raw, "noremap"@, 0);
    lemma_differs(raw, "nnoremap"@, 0);
    lemma_differs(raw, "vnoremap"@, 0);
    lemma_differs(raw, "inoremap"@, 0);
    lemma_differs(raw, "nmap"@, 0);
    lemma_differs(raw, "vmap"@, 0);
    lemma_differs(raw, "imap"@, 0);
    lemma_differs(raw, "map"@, 0);
}

} // verus!
