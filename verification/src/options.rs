//! The option subset the engine reads.
//!
//! Options are plain data on the engine (vim's "global" scope only).
//! Hosts can expose `:set`-style UI later; the engine only needs the values.
use crate::chars::{is_upper, upper};
use crate::strs::{chars_of, digits_value, is_number, parse_number, same_str, unsigned};
use vstd::prelude::*;

verus! {

/// The boolean options.
#[derive(Clone, Copy, Debug, PartialEq, Eq, Structural)]
pub enum Flag {
    Number,
    RelativeNumber,
    ExpandTab,
    AutoIndent,
    IgnoreCase,
    SmartCase,
    HlSearch,
    IncSearch,
    ShowMode,
    ShowCmd,
}

/// The numeric options.
#[derive(Clone, Copy, Debug, PartialEq, Eq, Structural)]
pub enum Amount {
    TabStop,
    ShiftWidth,
    TextWidth,
    ScrollOff,
}

/// The boolean option that goes by `name`, in full or abbreviated.
#[verifier::opaque]
pub open spec fn flag_of(name: Seq<char>) -> Option<Flag> {
    if name == "number"@ || name == "nu"@ {
        Some(Flag::Number)
    } else if name == "relativenumber"@ || name == "rnu"@ {
        Some(Flag::RelativeNumber)
    } else if name == "expandtab"@ || name == "et"@ {
        Some(Flag::ExpandTab)
    } else if name == "autoindent"@ || name == "ai"@ {
        Some(Flag::AutoIndent)
    } else if name == "ignorecase"@ || name == "ic"@ {
        Some(Flag::IgnoreCase)
    } else if name == "smartcase"@ || name == "scs"@ {
        Some(Flag::SmartCase)
    } else if name == "hlsearch"@ || name == "hls"@ {
        Some(Flag::HlSearch)
    } else if name == "incsearch"@ || name == "is"@ {
        Some(Flag::IncSearch)
    } else if name == "showmode"@ || name == "smd"@ {
        Some(Flag::ShowMode)
    } else if name == "showcmd"@ || name == "sc"@ {
        Some(Flag::ShowCmd)
    } else {
        None
    }
}

/// The numeric option that goes by `name`, in full or abbreviated.
#[verifier::opaque]
pub open spec fn amount_of(name: Seq<char>) -> Option<Amount> {
    if name == "tabstop"@ || name == "ts"@ {
        Some(Amount::TabStop)
    } else if name == "shiftwidth"@ || name == "sw"@ {
        Some(Amount::ShiftWidth)
    } else if name == "textwidth"@ || name == "tw"@ {
        Some(Amount::TextWidth)
    } else if name == "scrolloff"@ || name == "so"@ {
        Some(Amount::ScrollOff)
    } else {
        None
    }
}

/// Resolve `name` (canonical or alias) to a boolean option.
fn canonical_bool(name: &str) -> (r: Option<Flag>)
    ensures
        r == flag_of(name@),
{
    proof {
        reveal(flag_of);
    }
    if same_str(name, "number") || same_str(name, "nu") {
        Some(Flag::Number)
    } else if same_str(name, "relativenumber") || same_str(name, "rnu") {
        Some(Flag::RelativeNumber)
    } else if same_str(name, "expandtab") || same_str(name, "et") {
        Some(Flag::ExpandTab)
    } else if same_str(name, "autoindent") || same_str(name, "ai") {
        Some(Flag::AutoIndent)
    } else if same_str(name, "ignorecase") || same_str(name, "ic") {
        Some(Flag::IgnoreCase)
    } else if same_str(name, "smartcase") || same_str(name, "scs") {
        Some(Flag::SmartCase)
    } else if same_str(name, "hlsearch") || same_str(name, "hls") {
        Some(Flag::HlSearch)
    } else if same_str(name, "incsearch") || same_str(name, "is") {
        Some(Flag::IncSearch)
    } else if same_str(name, "showmode") || same_str(name, "smd") {
        Some(Flag::ShowMode)
    } else if same_str(name, "showcmd") || same_str(name, "sc") {
        Some(Flag::ShowCmd)
    } else {
        None
    }
}

/// Resolve `name` (canonical or alias) to a numeric option.
fn canonical_value(name: &str) -> (r: Option<Amount>)
    ensures
        r == amount_of(name@),
{
    proof {
        reveal(amount_of);
    }
    if same_str(name, "tabstop") || same_str(name, "ts") {
        Some(Amount::TabStop)
    } else if same_str(name, "shiftwidth") || same_str(name, "sw") {
        Some(Amount::ShiftWidth)
    } else if same_str(name, "textwidth") || same_str(name, "tw") {
        Some(Amount::TextWidth)
    } else if same_str(name, "scrolloff") || same_str(name, "so") {
        Some(Amount::ScrollOff)
    } else {
        None
    }
}

/// True if `name` (canonical or alias) names a boolean option. The rc parser
/// consults this before treating a leading `no` as negation.
pub fn is_bool_option(name: &str) -> (b: bool)
    ensures
        b == flag_of(name@) is Some,
{
    canonical_bool(name).is_some()
}

#[derive(Clone, Copy, Debug, PartialEq, Eq, Structural)]
pub struct Options {
    pub number: bool,
    pub relativenumber: bool,
    pub scrolloff: usize,
    pub tabstop: usize,
    pub shiftwidth: usize,
    pub textwidth: usize,
    pub expandtab: bool,
    pub autoindent: bool,
    pub ignorecase: bool,
    pub smartcase: bool,
    pub hlsearch: bool,
    pub incsearch: bool,
    pub showmode: bool,
    pub showcmd: bool,
}

/// The options before anything is set.
pub open spec fn default_options() -> Options {
    Options {
        number: false,
        relativenumber: false,
        scrolloff: 4,
        tabstop: 4,
        shiftwidth: 4,
        textwidth: 78,
        expandtab: true,
        autoindent: true,
        ignorecase: true,
        smartcase: true,
        hlsearch: true,
        incsearch: true,
        showmode: true,
        showcmd: true,
    }
}

impl Default for Options {
    fn default() -> (o: Self)
        ensures
            o == default_options(),
    {
        Options {
            number: false,
            relativenumber: false,
            scrolloff: 4,
            tabstop: 4,
            shiftwidth: 4,
            textwidth: 78,
            expandtab: true,
            autoindent: true,
            ignorecase: true,
            smartcase: true,
            hlsearch: true,
            incsearch: true,
            showmode: true,
            showcmd: true,
        }
    }
}

/// A text holds an uppercase letter.
pub open spec fn has_upper(s: Seq<char>) -> bool {
    exists|i: int| 0 <= i < s.len() && upper(#[trigger] s[i])
}

impl Options {
    pub open spec fn flag(self, f: Flag) -> bool {
        match f {
            Flag::Number => self.number,
            Flag::RelativeNumber => self.relativenumber,
            Flag::ExpandTab => self.expandtab,
            Flag::AutoIndent => self.autoindent,
            Flag::IgnoreCase => self.ignorecase,
            Flag::SmartCase => self.smartcase,
            Flag::HlSearch => self.hlsearch,
            Flag::IncSearch => self.incsearch,
            Flag::ShowMode => self.showmode,
            Flag::ShowCmd => self.showcmd,
        }
    }

    pub open spec fn with_flag(self, f: Flag, v: bool) -> Options {
        match f {
            Flag::Number => Options { number: v, ..self },
            Flag::RelativeNumber => Options { relativenumber: v, ..self },
            Flag::ExpandTab => Options { expandtab: v, ..self },
            Flag::AutoIndent => Options { autoindent: v, ..self },
            Flag::IgnoreCase => Options { ignorecase: v, ..self },
            Flag::SmartCase => Options { smartcase: v, ..self },
            Flag::HlSearch => Options { hlsearch: v, ..self },
            Flag::IncSearch => Options { incsearch: v, ..self },
            Flag::ShowMode => Options { showmode: v, ..self },
            Flag::ShowCmd => Options { showcmd: v, ..self },
        }
    }

    pub open spec fn amount(self, a: Amount) -> usize {
        match a {
            Amount::TabStop => self.tabstop,
            Amount::ShiftWidth => self.shiftwidth,
            Amount::TextWidth => self.textwidth,
            Amount::ScrollOff => self.scrolloff,
        }
    }

    pub open spec fn with_amount(self, a: Amount, v: usize) -> Options {
        match a {
            Amount::TabStop => Options { tabstop: v, ..self },
            Amount::ShiftWidth => Options { shiftwidth: v, ..self },
            Amount::TextWidth => Options { textwidth: v, ..self },
            Amount::ScrollOff => Options { scrolloff: v, ..self },
        }
    }

    /// A search for `query` ignores case.
    pub open spec fn ignores_case(self, query: Seq<char>) -> bool {
        self.ignorecase && !(self.smartcase && has_upper(query))
    }

    /// Case sensitivity for a query, honoring `ignorecase` + `smartcase`.
    pub fn case_insensitive_for(&self, query: &str) -> (b: bool)
        ensures
            b == self.ignores_case(query@),
    {
        let v = chars_of(query);
        let mut any = false;
        let mut i: usize = 0;
        while i < v.len()
            invariant
                i <= v.len(),
                v@ == query@,
                any == exists|k: int| 0 <= k < i && upper(#[trigger] v@[k]),
            decreases v.len() - i,
        {
            if is_upper(v[i]) {
                any = true;
            }
            i = i + 1;
        }
        self.ignorecase && !(self.smartcase && any)
    }

    /// `:set <name>` / `:set no<name>` support for boolean options.
    pub fn set_boolean(&mut self, name: &str, value: bool) -> (ok: bool)
        ensures
            ok == flag_of(name@) is Some,
            *final(self) == match flag_of(name@) {
                Some(f) => old(self).with_flag(f, value),
                None => *old(self),
            },
    {
        match canonical_bool(name) {
            Some(flag) => {
                self.set_flag(flag, value);
                true
            },
            None => false,
        }
    }

    fn set_flag(&mut self, flag: Flag, value: bool)
        ensures
            *final(self) == old(self).with_flag(flag, value),
    {
        match flag {
            Flag::Number => {
                self.number = value;
            },
            Flag::RelativeNumber => {
                self.relativenumber = value;
            },
            Flag::ExpandTab => {
                self.expandtab = value;
            },
            Flag::AutoIndent => {
                self.autoindent = value;
            },
            Flag::IgnoreCase => {
                self.ignorecase = value;
            },
            Flag::SmartCase => {
                self.smartcase = value;
            },
            Flag::HlSearch => {
                self.hlsearch = value;
            },
            Flag::IncSearch => {
                self.incsearch = value;
            },
            Flag::ShowMode => {
                self.showmode = value;
            },
            Flag::ShowCmd => {
                self.showcmd = value;
            },
        }
    }

    /// Current value of a boolean option (`:set name!` toggling).
    pub fn bool_option(&self, name: &str) -> (r: Option<bool>)
        ensures
            r == match flag_of(name@) {
                Some(f) => Some(self.flag(f)),
                None => None,
            },
    {
        match canonical_bool(name) {
            Some(Flag::Number) => Some(self.number),
            Some(Flag::RelativeNumber) => Some(self.relativenumber),
            Some(Flag::ExpandTab) => Some(self.expandtab),
            Some(Flag::AutoIndent) => Some(self.autoindent),
            Some(Flag::IgnoreCase) => Some(self.ignorecase),
            Some(Flag::SmartCase) => Some(self.smartcase),
            Some(Flag::HlSearch) => Some(self.hlsearch),
            Some(Flag::IncSearch) => Some(self.incsearch),
            Some(Flag::ShowMode) => Some(self.showmode),
            Some(Flag::ShowCmd) => Some(self.showcmd),
            None => None,
        }
    }

    /// `:set name=value` for numeric options.
    pub fn set_value(&mut self, name: &str, value: &str) -> (ok: bool)
        ensures
            ok == (amount_of(name@) is Some && is_number(value@)),
            ok ==> *final(self) == old(self).with_amount(
                amount_of(name@)->0,
                digits_value(unsigned(value@)) as usize,
            ),
            !ok ==> *final(self) == *old(self),
    {
        let amount = match canonical_value(name) {
            Some(amount) => amount,
            None => {
                return false;
            },
        };
        // every numeric option is a usize today, so one parse serves all
        let v = match parse_number(&chars_of(value)) {
            Some(v) => v,
            None => {
                return false;
            },
        };
        match amount {
            Amount::TabStop => {
                self.tabstop = v;
            },
            Amount::ShiftWidth => {
                self.shiftwidth = v;
            },
            Amount::TextWidth => {
                self.textwidth = v;
            },
            Amount::ScrollOff => {
                self.scrolloff = v;
            },
        }
        true
    }
}

/// Setting a boolean option is what reading it gives back, and no other
/// option is touched.
pub proof fn set_flag_then_read(o: Options, f: Flag, g: Flag, a: Amount, v: bool)
    ensures
        o.with_flag(f, v).flag(g) == if f == g {
            v
        } else {
            o.flag(g)
        },
        o.with_flag(f, v).amount(a) == o.amount(a),
        o.with_flag(f, o.flag(f)) == o,
{
    match f {
        Flag::Number => {},
        Flag::RelativeNumber => {},
        Flag::ExpandTab => {},
        Flag::AutoIndent => {},
        Flag::IgnoreCase => {},
        Flag::SmartCase => {},
        Flag::HlSearch => {},
        Flag::IncSearch => {},
        Flag::ShowMode => {},
        Flag::ShowCmd => {},
    }
}

/// Setting a numeric option is what reading it gives back, and no other
/// option is touched.
pub proof fn set_amount_then_read(o: Options, a: Amount, b: Amount, f: Flag, v: usize)
    ensures
        o.with_amount(a, v).amount(b) == if a == b {
            v
        } else {
            o.amount(b)
        },
        o.with_amount(a, v).flag(f) == o.flag(f),
{
}

} // verus!
