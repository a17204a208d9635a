//! Which option a name sets, and which keys a notation spells.
use crate::config::Choice;
use crate::key::{char_stroke, control_notation_round_trip, ctrl_stroke, named_stroke, parsed};
use crate::options::{amount_of, flag_of, Flag, Options};
use crate::strs::{
    ascii_lower, decimal, decimal_spells_the_number, has_prefix, is_digit, is_number, unsigned,
};
use vstd::prelude::*;

verus! {

proof fn lemma_flag_names()
    ensures
        flag_of("number"@) == Some(Flag::Number),
        flag_of("nu"@) == Some(Flag::Number),
        flag_of("relativenumber"@) == Some(Flag::RelativeNumber),
        flag_of("rnu"@) == Some(Flag::RelativeNumber),
        flag_of("expandtab"@) == Some(Flag::ExpandTab),
        flag_of("et"@) == Some(Flag::ExpandTab),
        flag_of("autoindent"@) == Some(Flag::AutoIndent),
        flag_of("ai"@) == Some(Flag::AutoIndent),
        flag_of("ignorecase"@) == Some(Flag::IgnoreCase),
        flag_of("ic"@) == Some(Flag::IgnoreCase),
{
    reveal(flag_of);
    reveal_strlit("number");
    reveal_strlit("nu");
    reveal_strlit("relativenumber");
    reveal_strlit("rnu");
    reveal_strlit("expandtab");
    reveal_strlit("et");
    reveal_strlit("autoindent");
    reveal_strlit("ai");
    reveal_strlit("ignorecase");
    reveal_strlit("ic");
    assert("relativenumber"@[0] == 'r' && "rnu"@[0] == 'r');
    assert("number"@[0] == 'n' && "nu"@[0] == 'n');
    assert("expandtab"@[0] == 'e' && "et"@[0] == 'e');
    assert("autoindent"@[0] == 'a' && "ai"@[0] == 'a');
    assert("ignorecase"@[0] == 'i' && "ic"@[0] == 'i');
}

proof fn lemma_more_flag_names()
    ensures
        flag_of("smartcase"@) == Some(Flag::SmartCase),
        flag_of("scs"@) == Some(Flag::SmartCase),
        flag_of("hlsearch"@) == Some(Flag::HlSearch),
        flag_of("hls"@) == Some(Flag::HlSearch),
        flag_of("incsearch"@) == Some(Flag::IncSearch),
        flag_of("is"@) == Some(Flag::IncSearch),
        flag_of("showmode"@) == Some(Flag::ShowMode),
        flag_of("smd"@) == Some(Flag::ShowMode),
        flag_of("showcmd"@) == Some(Flag::ShowCmd),
        flag_of("sc"@) == Some(Flag::ShowCmd),
{
    reveal(flag_of);
    reveal_strlit("number");
    reveal_strlit("nu");
    reveal_strlit("relativenumber");
    reveal_strlit("rnu");
    reveal_strlit("expandtab");
    reveal_strlit("et");
    reveal_strlit("autoindent");
    reveal_strlit("ai");
    reveal_strlit("ignorecase");
    reveal_strlit("ic");
    reveal_strlit("smartcase");
    reveal_strlit("scs");
    reveal_strlit("hlsearch");
    reveal_strlit("hls");
    reveal_strlit("incsearch");
    reveal_strlit("is");
    reveal_strlit("showmode");
    reveal_strlit("smd");
    reveal_strlit("showcmd");
    reveal_strlit("sc");
    assert("number"@[0] == 'n' && "nu"@[0] == 'n');
    assert("relativenumber"@[0] == 'r' && "rnu"@[0] == 'r');
    assert("expandtab"@[0] == 'e' && "et"@[0] == 'e');
    assert("autoindent"@[0] == 'a' && "ai"@[0] == 'a');
    assert("ignorecase"@[0] == 'i' && "ic"@[0] == 'i');
    assert("ic"@[1] == 'c' && "is"@[1] == 's');
    assert("incsearch"@[0] == 'i' && "is"@[0] == 'i');
    assert("smartcase"@[0] == 's' && "scs"@[0] == 's' && "smartcase"@[1] == 'm');
    assert("scs"@[1] == 'c' && "smd"@[1] == 'm');
    assert("showmode"@[1] == 'h' && "showcmd"@[1] == 'h');
    assert("showmode"@[0] == 's' && "showcmd"@[0] == 's' && "smd"@[0] == 's' && "sc"@[0] == 's');
    assert("hlsearch"@[0] == 'h' && "hls"@[0] == 'h');
    assert("number"@.len() == 6);
    assert("nu"@.len() == 2);
    assert("relativenumber"@.len() == 14);
    assert("rnu"@.len() == 3);
    assert("expandtab"@.len() == 9);
    assert("et"@.len() == 2);
    assert("autoindent"@.len() == 10);
    assert("ai"@.len() == 2);
    assert("ignorecase"@.len() == 10);
    assert("ic"@.len() == 2);
    assert("smartcase"@.len() == 9);
    assert("scs"@.len() == 3);
    assert("hlsearch"@.len() == 8);
    assert("hls"@.len() == 3);
    assert("incsearch"@.len() == 9);
    assert("is"@.len() == 2);
    assert("showmode"@.len() == 8);
    assert("smd"@.len() == 3);
    assert("showcmd"@.len() == 7);
    assert("sc"@.len() == 2);
}

/// Each boolean option goes by its name and by an abbreviation of it: turned on
/// or off, that option changes and no other.
pub proof fn flags_go_by_their_names(o: Options)
    ensures
        o.chosen(Choice::On("number"@)) == Some(Options { number: true, ..o }),
        o.chosen(Choice::On("nu"@)) == Some(Options { number: true, ..o }),
        o.chosen(Choice::Off("number"@)) == Some(Options { number: false, ..o }),
        o.chosen(Choice::Toggle("number"@)) == Some(Options { number: !o.number, ..o }),
        o.chosen(Choice::On("relativenumber"@)) == Some(Options { relativenumber: true, ..o }),
        o.chosen(Choice::On("rnu"@)) == Some(Options { relativenumber: true, ..o }),
        o.chosen(Choice::Off("rnu"@)) == Some(Options { relativenumber: false, ..o }),
        o.chosen(Choice::On("expandtab"@)) == Some(Options { expandtab: true, ..o }),
        o.chosen(Choice::On("et"@)) == Some(Options { expandtab: true, ..o }),
        o.chosen(Choice::Off("et"@)) == Some(Options { expandtab: false, ..o }),
        o.chosen(Choice::On("autoindent"@)) == Some(Options { autoindent: true, ..o }),
        o.chosen(Choice::On("ai"@)) == Some(Options { autoindent: true, ..o }),
        o.chosen(Choice::Off("ai"@)) == Some(Options { autoindent: false, ..o }),
        o.chosen(Choice::On("ignorecase"@)) == Some(Options { ignorecase: true, ..o }),
        o.chosen(Choice::On("ic"@)) == Some(Options { ignorecase: true, ..o }),
        o.chosen(Choice::Off("ic"@)) == Some(Options { ignorecase: false, ..o }),
        o.chosen(Choice::On("smartcase"@)) == Some(Options { smartcase: true, ..o }),
        o.chosen(Choice::On("scs"@)) == Some(Options { smartcase: true, ..o }),
        o.chosen(Choice::Off("scs"@)) == Some(Options { smartcase: false, ..o }),
        o.chosen(Choice::On("hlsearch"@)) == Some(Options { hlsearch: true, ..o }),
        o.chosen(Choice::On("hls"@)) == Some(Options { hlsearch: true, ..o }),
        o.chosen(Choice::Off("hls"@)) == Some(Options { hlsearch: false, ..o }),
        o.chosen(Choice::On("incsearch"@)) == Some(Options { incsearch: true, ..o }),
        o.chosen(Choice::On("is"@)) == Some(Options { incsearch: true, ..o }),
        o.chosen(Choice::Off("is"@)) == Some(Options { incsearch: false, ..o }),
        o.chosen(Choice::On("showmode"@)) == Some(Options { showmode: true, ..o }),
        o.chosen(Choice::On("smd"@)) == Some(Options { showmode: true, ..o }),
        o.chosen(Choice::Off("smd"@)) == Some(Options { showmode: false, ..o }),
        o.chosen(Choice::On("showcmd"@)) == Some(Options { showcmd: true, ..o }),
        o.chosen(Choice::On("sc"@)) == Some(Options { showcmd: true, ..o }),
        o.chosen(Choice::Off("sc"@)) == Some(Options { showcmd: false, ..o }),
{
    lemma_flag_names();
    lemma_more_flag_names();
}

/// Each numeric option goes by its name and by an abbreviation of it: given a
/// number in decimal, that option takes it and no other changes.
pub proof fn amounts_go_by_their_names(o: Options, n: usize)
    ensures
        ({
            let text = decimal(n as int);
            &&& o.chosen(Choice::Value("tabstop"@, text)) == Some(Options { tabstop: n, ..o })
            &&& o.chosen(Choice::Value("ts"@, text)) == Some(Options { tabstop: n, ..o })
            &&& o.chosen(Choice::Value("shiftwidth"@, text)) == Some(
                Options { shiftwidth: n, ..o },
            )
            &&& o.chosen(Choice::Value("sw"@, text)) == Some(Options { shiftwidth: n, ..o })
            &&& o.chosen(Choice::Value("textwidth"@, text)) == Some(Options { textwidth: n, ..o })
            &&& o.chosen(Choice::Value("tw"@, text)) == Some(Options { textwidth: n, ..o })
            &&& o.chosen(Choice::Value("scrolloff"@, text)) == Some(Options { scrolloff: n, ..o })
            &&& o.chosen(Choice::Value("so"@, text)) == Some(Options { scrolloff: n, ..o })
        }),
{
    reveal(amount_of);
    reveal_strlit("tabstop");
    reveal_strlit("ts");
    reveal_strlit("shiftwidth");
    reveal_strlit("sw");
    reveal_strlit("textwidth");
    reveal_strlit("tw");
    reveal_strlit("scrolloff");
    reveal_strlit("so");
    let text = decimal(n as int);
    decimal_spells_the_number(n as int);
    assert(is_digit(text[0]));
    assert(unsigned(text) == text);
    assert("tabstop"@[0] == 't' && "ts"@[0] == 't' && "textwidth"@[0] == 't' && "tw"@[0] == 't');
    assert("shiftwidth"@[0] == 's' && "sw"@[0] == 's' && "scrolloff"@[0] == 's' && "so"@[0] == 's');
    assert("ts"@[1] == 's' && "tw"@[1] == 'w' && "sw"@[1] == 'w' && "so"@[1] == 'o');
    assert("textwidth"@[1] == 'e' && "tabstop"@[1] == 'a');
    assert("shiftwidth"@[1] == 'h' && "scrolloff"@[1] == 'c');
    assert("tabstop"@.len() == 7);
    assert("ts"@.len() == 2);
    assert("shiftwidth"@.len() == 10);
    assert("sw"@.len() == 2);
    assert("textwidth"@.len() == 9);
    assert("tw"@.len() == 2);
    assert("scrolloff"@.len() == 9);
    assert("so"@.len() == 2);
}

/// A name that is no option's sets nothing, and so does a value that is no
/// number.
pub proof fn unknown_names_set_nothing(o: Options, name: Seq<char>, value: Seq<char>)
    ensures
        flag_of(name) is None ==> o.chosen(Choice::On(name)) is None && o.chosen(
            Choice::Off(name),
        ) is None && o.chosen(Choice::Toggle(name)) is None,
        !is_number(value) ==> o.chosen(Choice::Value(name, value)) is None,
{
}

/// Choices are made one after the other; one that cannot be made changes
/// nothing, and of two for the same option the later one counts.
pub proof fn choices_are_made_in_order(o: Options, list: Seq<Choice>, c: Choice)
    ensures
        o.chosen_all(Seq::empty()) == o,
        o.chosen_all(list.push(c)) == match o.chosen_all(list).chosen(c) {
            Some(p) => p,
            None => o.chosen_all(list),
        },
        o.choices_made(list.push(c)) == o.choices_made(list) + if o.chosen_all(list).chosen(c)
            is Some {
            1int
        } else {
            0
        },
        o.choices_made(Seq::empty()) == 0,
{
    assert(list.push(c).drop_last() =~= list);
}

// ---- keys --------------------------------------------------------------------------------

/// What stands between angle brackets names a key, in capital or in small
/// letters; `C-` before it holds control down.
pub proof fn keys_have_their_names(c: char)
    requires
        c != '>',
    ensures
        parsed("<Esc>"@) == named_stroke("escape"@),
        parsed("<CR>"@) == named_stroke("enter"@),
        parsed("<BS>"@) == named_stroke("backspace"@),
        parsed("<Del>"@) == named_stroke("delete"@),
        parsed("<Tab>"@) == named_stroke("tab"@),
        parsed("<Space>"@) == named_stroke("space"@),
        parsed("<lt>"@) == char_stroke('<'),
        parsed("<Bar>"@) == char_stroke('|'),
        parsed(seq!['<', 'C', '-', c, '>']) == ctrl_stroke(c),
        parsed(seq![c]) == char_stroke(c),
{
    reveal_strlit("<Esc>");
    reveal_strlit("<CR>");
    reveal_strlit("<BS>");
    reveal_strlit("<Del>");
    reveal_strlit("<Tab>");
    reveal_strlit("<Space>");
    reveal_strlit("<lt>");
    reveal_strlit("<Bar>");
    lemma_names();
    let inner = |s: Seq<char>| s.subrange(1, s.len() - 1);
    assert(ascii_lower(inner("<Esc>"@)) =~= "esc"@);
    assert(ascii_lower(inner("<CR>"@)) =~= "cr"@);
    assert(ascii_lower(inner("<BS>"@)) =~= "bs"@);
    assert(ascii_lower(inner("<Del>"@)) =~= "del"@);
    assert(ascii_lower(inner("<Tab>"@)) =~= "tab"@);
    assert(ascii_lower(inner("<Space>"@)) =~= "space"@);
    assert(ascii_lower(inner("<lt>"@)) =~= "lt"@);
    assert(ascii_lower(inner("<Bar>"@)) =~= "bar"@);
    lemma_no_control(inner("<Esc>"@));
    lemma_no_control(inner("<CR>"@));
    lemma_no_control(inner("<BS>"@));
    lemma_no_control(inner("<Del>"@));
    lemma_no_control(inner("<Tab>"@));
    lemma_no_control(inner("<Space>"@));
    lemma_no_control(inner("<lt>"@));
    lemma_no_control(inner("<Bar>"@));
    control_notation_round_trip(c);
    let s = seq!['<', 'C', '-', c, '>'];
    let i = seq!['C', '-', c];
    assert(inner(s) =~= i);
    reveal_strlit("C-");
    assert(i.take(2) =~= "C-"@);
    assert(i.skip(2) =~= seq![c]);
    assert(ascii_lower(seq![c]).len() == 1);
}

proof fn lemma_names()
    ensures
        "esc"@ =~= seq!['e', 's', 'c'],
        "cr"@ =~= seq!['c', 'r'],
        "return"@ =~= seq!['r', 'e', 't', 'u', 'r', 'n'],
        "enter"@ =~= seq!['e', 'n', 't', 'e', 'r'],
        "bs"@ =~= seq!['b', 's'],
        "del"@ =~= seq!['d', 'e', 'l'],
        "tab"@ =~= seq!['t', 'a', 'b'],
        "space"@ =~= seq!['s', 'p', 'a', 'c', 'e'],
        "lt"@ =~= seq!['l', 't'],
        "bar"@ =~= seq!['b', 'a', 'r'],
{
    reveal_strlit("esc");
    reveal_strlit("cr");
    reveal_strlit("return");
    reveal_strlit("enter");
    reveal_strlit("bs");
    reveal_strlit("del");
    reveal_strlit("tab");
    reveal_strlit("space");
    reveal_strlit("lt");
    reveal_strlit("bar");
}

proof fn lemma_no_control(s: Seq<char>)
    requires
        s.len() >= 2,
        s[0] != 'C' || s[1] != '-',
    ensures
        !has_prefix(s, "C-"@),
{
    reveal_strlit("C-");
    if has_prefix(s, "C-"@) {
        assert(s.take(2)[0] == s[0]);
        assert(s.take(2)[1] == s[1]);
    }
}

} // verus!
