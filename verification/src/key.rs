//! Keystroke model.
//!
//! A keystroke is a base key — named (`"escape"`, `"space"`) or a printable
//! character — together with the modifiers held while it was pressed.
use crate::strs::{
    ascii_lower, chars_of, copy_str, has_prefix, same_chars, same_str, split_words, starts_with,
    string_of, sub_chars, texts, to_ascii_lower, words,
};
use vstd::prelude::*;

verus! {

/// Modifier flags attached to a key press.
#[derive(Clone, Copy, Debug, PartialEq, Eq, Hash, Structural)]
pub struct Modifiers {
    pub control: bool,
    pub alt: bool,
    pub shift: bool,
    pub platform: bool,
}

/// No modifier held.
pub open spec fn no_modifiers() -> Modifiers {
    Modifiers { control: false, alt: false, shift: false, platform: false }
}

/// Control alone held.
pub open spec fn ctrl_only() -> Modifiers {
    Modifiers { control: true, alt: false, shift: false, platform: false }
}

impl Default for Modifiers {
    fn default() -> (m: Self)
        ensures
            m == no_modifiers(),
    {
        Modifiers::none()
    }
}

impl Modifiers {
    pub fn none() -> (m: Self)
        ensures
            m == no_modifiers(),
    {
        Modifiers { control: false, alt: false, shift: false, platform: false }
    }

    pub fn ctrl() -> (m: Self)
        ensures
            m == ctrl_only(),
    {
        Modifiers { control: true, alt: false, shift: false, platform: false }
    }

    /// Neither control, alt nor the platform key is held.
    pub open spec fn plain(self) -> bool {
        !self.control && !self.alt && !self.platform
    }

    pub fn is_plain(&self) -> (b: bool)
        ensures
            b == self.plain(),
    {
        !self.control && !self.alt && !self.platform
    }
}

/// The non-modifier part of a keystroke.
#[derive(Debug, PartialEq, Eq, Hash)]
pub enum KeyKind {
    /// A named key ("escape", "enter", ...). `String` keeps this open-ended so
    /// exotic keys survive conversion instead of being dropped.
    Named(String),
    /// A printable character key.
    Char(char),
}

/// A single keystroke fed into the engine.
#[derive(Debug, PartialEq, Eq, Hash)]
pub struct Key {
    pub modifiers: Modifiers,
    pub kind: KeyKind,
}

/// What a [`KeyKind`] stands for.
pub enum Kind {
    Named(Seq<char>),
    Char(char),
}

/// What a [`Key`] stands for.
pub struct Stroke {
    pub modifiers: Modifiers,
    pub kind: Kind,
}

impl View for KeyKind {
    type V = Kind;

    open spec fn view(&self) -> Kind {
        match self {
            KeyKind::Named(name) => Kind::Named(name@),
            KeyKind::Char(c) => Kind::Char(*c),
        }
    }
}

impl View for Key {
    type V = Stroke;

    open spec fn view(&self) -> Stroke {
        Stroke { modifiers: self.modifiers, kind: self.kind@ }
    }
}

/// A list of keys, as a sequence of strokes.
pub open spec fn strokes(keys: Seq<Key>) -> Seq<Stroke> {
    keys.map_values(|k: Key| k@)
}

pub open spec fn char_stroke(c: char) -> Stroke {
    Stroke { modifiers: no_modifiers(), kind: Kind::Char(c) }
}

pub open spec fn named_stroke(name: Seq<char>) -> Stroke {
    Stroke { modifiers: no_modifiers(), kind: Kind::Named(name) }
}

pub open spec fn ctrl_stroke(c: char) -> Stroke {
    Stroke { modifiers: ctrl_only(), kind: Kind::Char(c) }
}

impl Clone for KeyKind {
    fn clone(&self) -> (k: Self)
        ensures
            k@ == self@,
    {
        match self {
            KeyKind::Named(name) => KeyKind::Named(name.clone()),
            KeyKind::Char(c) => KeyKind::Char(*c),
        }
    }
}

impl Clone for Key {
    fn clone(&self) -> (k: Self)
        ensures
            k@ == self@,
    {
        Key { modifiers: self.modifiers, kind: self.kind.clone() }
    }
}

/// A copy of a list of keys.
pub fn copy_keys(keys: &Vec<Key>) -> (r: Vec<Key>)
    ensures
        strokes(r@) == strokes(keys@),
{
    copy_keys_from(keys, 0)
}

/// The keys from index `from` on.
pub fn copy_keys_from(keys: &Vec<Key>, from: usize) -> (r: Vec<Key>)
    requires
        from <= keys.len(),
    ensures
        strokes(r@) == strokes(keys@).skip(from as int),
{
    let mut r: Vec<Key> = Vec::new();
    let mut i: usize = from;
    while i < keys.len()
        invariant
            from <= i <= keys.len(),
            strokes(r@) == strokes(keys@).subrange(from as int, i as int),
        decreases keys.len() - i,
    {
        let ghost before = strokes(r@);
        r.push(keys[i].clone());
        i = i + 1;
        proof {
            assert(strokes(r@) =~= before.push(keys@[i - 1]@));
            assert(strokes(keys@).subrange(from as int, i as int) =~= strokes(keys@).subrange(
                from as int,
                i - 1,
            ).push(keys@[i - 1]@));
        }
    }
    proof {
        assert(strokes(keys@).subrange(from as int, i as int) =~= strokes(keys@).skip(from as int));
    }
    r
}

/// What a keystroke spells: named `name` by its table name.
pub open spec fn name_notation(name: Seq<char>) -> Seq<char> {
    if name == "escape"@ {
        "Esc"@
    } else if name == "enter"@ {
        "Enter"@
    } else if name == "backspace"@ {
        "BS"@
    } else if name == "space"@ {
        "Space"@
    } else if name == "tab"@ {
        "Tab"@
    } else {
        name
    }
}

pub open spec fn when(b: bool, s: Seq<char>) -> Seq<char> {
    if b {
        s
    } else {
        Seq::empty()
    }
}

impl Stroke {
    /// The canonical notation of a stroke.
    pub open spec fn notation(self) -> Seq<char> {
        when(self.modifiers.control, "C-"@) + when(self.modifiers.alt, "M-"@) + when(
            self.modifiers.platform,
            "D-"@,
        ) + when(self.modifiers.shift, "S-"@) + match self.kind {
            Kind::Char(c) => seq![c],
            Kind::Named(name) => name_notation(name),
        }
    }

    /// The character that the stroke types, if it types one.
    pub open spec fn printable(self) -> Option<char> {
        if !self.modifiers.plain() {
            None
        } else {
            match self.kind {
                Kind::Char(c) => Some(c),
                Kind::Named(name) => if name == "space"@ {
                    Some(' ')
                } else if name == "tab"@ {
                    Some('\t')
                } else {
                    None
                },
            }
        }
    }

    /// A plain space bar is the space character.
    pub open spec fn canonical(self) -> Stroke {
        if self.modifiers.plain() && self.kind == Kind::Named("space"@) {
            Stroke { modifiers: self.modifiers, kind: Kind::Char(' ') }
        } else {
            self
        }
    }
}

/// What stands between `<` and `>`, as a stroke.
pub open spec fn angle(inner: Seq<char>) -> Stroke {
    let control = has_prefix(inner, "C-"@);
    let rest = if control {
        inner.skip(2)
    } else {
        inner
    };
    let modifiers = if control {
        ctrl_only()
    } else {
        no_modifiers()
    };
    let low = ascii_lower(rest);
    if low == "esc"@ {
        named_stroke("escape"@)
    } else if low == "cr"@ || low == "return"@ || low == "enter"@ {
        named_stroke("enter"@)
    } else if low == "bs"@ {
        named_stroke("backspace"@)
    } else if low == "del"@ {
        named_stroke("delete"@)
    } else if low == "space"@ {
        named_stroke("space"@)
    } else if low == "tab"@ {
        named_stroke("tab"@)
    } else if low == "lt"@ {
        Stroke { modifiers, kind: Kind::Char('<') }
    } else if low == "bar"@ {
        Stroke { modifiers, kind: Kind::Char('|') }
    } else if rest.len() == 1 {
        Stroke { modifiers, kind: Kind::Char(rest[0]) }
    } else {
        Stroke { modifiers, kind: Kind::Named(low) }
    }
}

/// The stroke that a notation stands for.
pub open spec fn parsed(s: Seq<char>) -> Stroke {
    if s.len() == 1 {
        char_stroke(s[0])
    } else if s.len() > 0 && s[0] == '<' {
        if s.last() == '>' {
            angle(s.subrange(1, s.len() - 1))
        } else {
            angle(s)
        }
    } else if has_prefix(s, "C-"@) {
        if s.len() == 3 {
            ctrl_stroke(s[2])
        } else {
            Stroke { modifiers: ctrl_only(), kind: Kind::Named(s.skip(2)) }
        }
    } else {
        named_stroke(s)
    }
}

/// Length of the first group of a mapping side: one character, or everything
/// from a `<` to the next `>`.
pub open spec fn group_len(s: Seq<char>) -> int {
    if s.len() > 0 && s[0] == '<' {
        1 + through_close(s.drop_first())
    } else {
        1
    }
}

/// Length of the text up to and including the first `>`.
pub open spec fn through_close(s: Seq<char>) -> int
    decreases s.len(),
{
    if s.len() == 0 {
        0
    } else if s[0] == '>' {
        1
    } else {
        1 + through_close(s.drop_first())
    }
}

proof fn lemma_through_close(s: Seq<char>)
    ensures
        0 <= through_close(s) <= s.len(),
    decreases s.len(),
{
    if s.len() > 0 && s[0] != '>' {
        lemma_through_close(s.drop_first());
    }
}

/// The strokes of a mapping side: each group is one stroke.
pub open spec fn parsed_sequence(s: Seq<char>) -> Seq<Stroke>
    decreases s.len(),
    via parsed_sequence_decreases
{
    if s.len() == 0 {
        Seq::empty()
    } else {
        seq![parsed(s.take(group_len(s)))] + parsed_sequence(s.skip(group_len(s)))
    }
}

#[via_fn]
proof fn parsed_sequence_decreases(s: Seq<char>) {
    if s.len() > 0 {
        lemma_through_close(s.drop_first());
    }
}

impl Key {
    pub fn plain(kind: KeyKind) -> (k: Self)
        ensures
            k@ == (Stroke { modifiers: no_modifiers(), kind: kind@ }),
    {
        Key { modifiers: Modifiers::none(), kind }
    }

    pub fn named(name: &str) -> (k: Self)
        ensures
            k@ == named_stroke(name@),
    {
        Key::plain(KeyKind::Named(copy_str(name)))
    }

    pub fn ctrl(name: &str) -> (k: Self)
        ensures
            k@ == (Stroke { modifiers: ctrl_only(), kind: Kind::Named(name@) }),
    {
        Key { modifiers: Modifiers::ctrl(), kind: KeyKind::Named(copy_str(name)) }
    }

    pub fn ctrl_char(c: char) -> (k: Self)
        ensures
            k@ == ctrl_stroke(c),
    {
        Key { modifiers: Modifiers::ctrl(), kind: KeyKind::Char(c) }
    }

    pub fn char(c: char) -> (k: Self)
        ensures
            k@ == char_stroke(c),
    {
        Key::plain(KeyKind::Char(c))
    }

    pub fn escape() -> (k: Self)
        ensures
            k@ == named_stroke("escape"@),
    {
        Key::named("escape")
    }

    pub fn enter() -> (k: Self)
        ensures
            k@ == named_stroke("enter"@),
    {
        Key::named("enter")
    }

    pub fn backspace() -> (k: Self)
        ensures
            k@ == named_stroke("backspace"@),
    {
        Key::named("backspace")
    }

    pub fn tab() -> (k: Self)
        ensures
            k@ == named_stroke("tab"@),
    {
        Key::named("tab")
    }

    /// The two keys are the same keystroke.
    pub fn same(&self, other: &Key) -> (b: bool)
        ensures
            b == (self@ == other@),
    {
        self.modifiers == other.modifiers && match (&self.kind, &other.kind) {
            (KeyKind::Named(a), KeyKind::Named(b)) => same_str(a.as_str(), b.as_str()),
            (KeyKind::Char(a), KeyKind::Char(b)) => *a == *b,
            _ => false,
        }
    }

    /// The key is the named key `name`, whatever the modifiers.
    pub fn is_named(&self, name: &str) -> (b: bool)
        ensures
            b == (self@.kind == Kind::Named(name@)),
    {
        match &self.kind {
            KeyKind::Named(n) => same_str(n.as_str(), name),
            KeyKind::Char(_) => false,
        }
    }

    /// The key is the character key `c`, whatever the modifiers.
    pub fn is_char(&self, c: char) -> (b: bool)
        ensures
            b == (self@.kind == Kind::Char(c)),
    {
        match &self.kind {
            KeyKind::Named(_) => false,
            KeyKind::Char(d) => *d == c,
        }
    }

    /// The printable character carried by this keystroke, ignoring ones held
    /// with control/alt/platform modifiers (those are command keys, not text).
    pub fn printable_char(&self) -> (c: Option<char>)
        ensures
            c == self@.printable(),
    {
        if !self.modifiers.is_plain() {
            return None;
        }
        match &self.kind {
            KeyKind::Char(c) => Some(*c),
            KeyKind::Named(name) => if same_str(name.as_str(), "space") {
                Some(' ')
            } else if same_str(name.as_str(), "tab") {
                Some('\t')
            } else {
                None
            },
        }
    }

    /// Both spellings of a plain space bar, as the space character.
    pub fn canonical(self) -> (k: Key)
        ensures
            k@ == self@.canonical(),
    {
        if self.modifiers.is_plain() && self.is_named("space") {
            Key { modifiers: self.modifiers, kind: KeyKind::Char(' ') }
        } else {
            self
        }
    }

    /// Normalize `self` into a canonical notation such as `C-a`, `Esc`, `d`.
    pub fn notation(&self) -> (s: String)
        ensures
            s@ == self@.notation(),
    {
        let mut s = String::new();
        if self.modifiers.control {
            s.push_str("C-");
        }
        if self.modifiers.alt {
            s.push_str("M-");
        }
        if self.modifiers.platform {
            s.push_str("D-");
        }
        if self.modifiers.shift {
            s.push_str("S-");
        }
        match &self.kind {
            KeyKind::Char(c) => {
                s.push(*c);
            },
            KeyKind::Named(name) => {
                if same_str(name.as_str(), "escape") {
                    s.push_str("Esc");
                } else if same_str(name.as_str(), "enter") {
                    s.push_str("Enter");
                } else if same_str(name.as_str(), "backspace") {
                    s.push_str("BS");
                } else if same_str(name.as_str(), "space") {
                    s.push_str("Space");
                } else if same_str(name.as_str(), "tab") {
                    s.push_str("Tab");
                } else {
                    s.push_str(name.as_str());
                }
            },
        }
        proof {
            assert(s@ =~= self@.notation());
        }
        s
    }

    /// Parse a keystroke from vim-like notation: `"d"`, `"<Esc>"`, `"<C-a>"`,
    /// `"<Space>"`, `"<CR>"`, `"<lt>"`. Used by the command table and by the
    /// mapping API.
    pub fn parse(s: &str) -> (k: Key)
        ensures
            k@ == parsed(s@),
    {
        Key::parse_chars(&chars_of(s))
    }

    fn parse_chars(s: &Vec<char>) -> (k: Key)
        ensures
            k@ == parsed(s@),
    {
        // single characters are themselves, including '<' and '>'
        if s.len() == 1 {
            return Key::char(s[0]);
        }
        if s.len() > 0 && s[0] == '<' {
            if s[s.len() - 1] == '>' {
                return Key::parse_angle(&sub_chars(s, 1, s.len() - 1));
            }
            return Key::parse_angle(s);
        }
        // bare modifier sequence like `C-a`
        if starts_with(s, "C-") {
            proof {
                reveal_strlit("C-");
            }
            if s.len() == 3 {
                return Key::ctrl_char(s[2]);
            }
            let rest = string_of(s, 2, s.len());
            proof {
                assert(rest@ =~= s@.skip(2));
            }
            return Key::ctrl(rest.as_str());
        }
        let name = string_of(s, 0, s.len());
        proof {
            assert(name@ =~= s@);
        }
        Key::named(name.as_str())
    }

    fn parse_angle(inner: &Vec<char>) -> (k: Key)
        ensures
            k@ == angle(inner@),
    {
        proof {
            reveal_strlit("C-");
        }
        let control = starts_with(inner, "C-");
        let modifiers = if control {
            Modifiers::ctrl()
        } else {
            Modifiers::none()
        };
        let rest = if control {
            sub_chars(inner, 2, inner.len())
        } else {
            sub_chars(inner, 0, inner.len())
        };
        proof {
            if control {
                assert(rest@ =~= inner@.skip(2));
            } else {
                assert(rest@ =~= inner@);
            }
        }
        let low = to_ascii_lower(&rest);
        if same_chars(&low, &chars_of("esc")) {
            Key::named("escape")
        } else if same_chars(&low, &chars_of("cr")) || same_chars(&low, &chars_of("return"))
            || same_chars(&low, &chars_of("enter")) {
            Key::named("enter")
        } else if same_chars(&low, &chars_of("bs")) {
            Key::named("backspace")
        } else if same_chars(&low, &chars_of("del")) {
            Key::named("delete")
        } else if same_chars(&low, &chars_of("space")) {
            Key::named("space")
        } else if same_chars(&low, &chars_of("tab")) {
            Key::named("tab")
        } else if same_chars(&low, &chars_of("lt")) {
            Key { modifiers, kind: KeyKind::Char('<') }
        } else if same_chars(&low, &chars_of("bar")) {
            Key { modifiers, kind: KeyKind::Char('|') }
        } else if rest.len() == 1 {
            Key { modifiers, kind: KeyKind::Char(rest[0]) }
        } else {
            let name = string_of(&low, 0, low.len());
            proof {
                assert(name@ =~= low@);
            }
            Key { modifiers, kind: KeyKind::Named(name) }
        }
    }
}

/// Parse a sequence like `"g g"` or `"dd"` into keystrokes.
pub fn parse_keys(seq: &str) -> (keys: Vec<Key>)
    ensures
        strokes(keys@) == words(seq@).map_values(|w: Seq<char>| parsed(w)),
{
    let parts = split_words(&chars_of(seq));
    let ghost want = words(seq@).map_values(|w: Seq<char>| parsed(w));
    let mut keys: Vec<Key> = Vec::new();
    let mut i: usize = 0;
    while i < parts.len()
        invariant
            i <= parts.len(),
            texts(parts@) == words(seq@),
            want == words(seq@).map_values(|w: Seq<char>| parsed(w)),
            strokes(keys@) == want.take(i as int),
        decreases parts.len() - i,
    {
        let ghost before = strokes(keys@);
        let key = Key::parse_chars(&parts[i]);
        keys.push(key);
        i = i + 1;
        proof {
            assert(texts(parts@)[i - 1] == parts@[i - 1]@);
            assert(strokes(keys@) =~= before.push(key@));
            assert(want.take(i as int) =~= want.take(i - 1).push(want[i - 1]));
        }
    }
    proof {
        assert(want.take(i as int) =~= want);
    }
    keys
}

/// Parse a vim mapping sequence like `"jk"`, `"<Esc>x"` into keystrokes.
/// Angle-bracket names group multiple characters into one key.
pub fn parse_key_sequence(seq: &str) -> (keys: Vec<Key>)
    ensures
        strokes(keys@) == parsed_sequence(seq@),
{
    parse_key_chars(&chars_of(seq))
}

/// [`parse_key_sequence`] on a list of characters.
pub fn parse_key_chars(s: &Vec<char>) -> (keys: Vec<Key>)
    ensures
        strokes(keys@) == parsed_sequence(s@),
{
    let mut keys: Vec<Key> = Vec::new();
    let mut i: usize = 0;
    proof {
        assert(s@.skip(0) =~= s@);
        assert(strokes(keys@) + parsed_sequence(s@) =~= parsed_sequence(s@));
    }
    while i < s.len()
        invariant
            i <= s.len(),
            strokes(keys@) + parsed_sequence(s@.skip(i as int)) == parsed_sequence(s@),
        decreases s.len() - i,
    {
        let ghost rest = s@.skip(i as int);
        let mut j: usize = i + 1;
        if s[i] == '<' {
            let mut closed = false;
            proof {
                assert(rest.drop_first() =~= s@.skip(i + 1));
            }
            while j < s.len() && !closed
                invariant
                    i < j <= s.len(),
                    rest.drop_first() == s@.skip(i + 1),
                    !closed ==> through_close(rest.drop_first()) == (j - (i + 1)) + through_close(
                        s@.skip(j as int),
                    ),
                    closed ==> through_close(rest.drop_first()) == j - (i + 1),
                decreases s.len() - j,
            {
                proof {
                    assert(s@.skip(j as int)[0] == s@[j as int]);
                    assert(s@.skip(j as int).drop_first() =~= s@.skip(j + 1));
                }
                if s[j] == '>' {
                    closed = true;
                }
                j = j + 1;
            }
            proof {
                if !closed {
                    assert(s@.skip(j as int).len() == 0);
                }
            }
        }
        proof {
            assert(rest[0] == s@[i as int]);
            assert(group_len(rest) == j - i);
            assert(rest.take(j - i) =~= s@.subrange(i as int, j as int));
            assert(rest.skip(j - i) =~= s@.skip(j as int));
        }
        let ghost before = strokes(keys@);
        let key = Key::parse_chars(&sub_chars(s, i, j));
        keys.push(key);
        proof {
            assert(strokes(keys@) =~= before.push(key@));
            assert(before.push(key@) + parsed_sequence(s@.skip(j as int)) =~= before + (seq![key@]
                + parsed_sequence(s@.skip(j as int))));
        }
        i = j;
    }
    proof {
        assert(s@.skip(i as int) =~= Seq::<char>::empty());
        assert(strokes(keys@) + Seq::<Stroke>::empty() =~= strokes(keys@));
    }
    keys
}

/// A character key is spelled by its character, and that spelling parses back
/// to it.
pub proof fn char_notation_round_trip(c: char)
    ensures
        char_stroke(c).notation() == seq![c],
        parsed(char_stroke(c).notation()) == char_stroke(c),
{
    assert(char_stroke(c).notation() =~= seq![c]);
}

/// Control with a character key is spelled `C-` and the character, and that
/// spelling parses back to it, bare or in angle brackets.
pub proof fn control_notation_round_trip(c: char)
    ensures
        parsed(ctrl_stroke(c).notation()) == ctrl_stroke(c),
        parsed(seq!['<'] + ctrl_stroke(c).notation() + seq!['>']) == ctrl_stroke(c),
{
    reveal_strlit("C-");
    reveal_strlit("esc");
    reveal_strlit("cr");
    reveal_strlit("return");
    reveal_strlit("enter");
    reveal_strlit("bs");
    reveal_strlit("del");
    reveal_strlit("space");
    reveal_strlit("tab");
    reveal_strlit("lt");
    reveal_strlit("bar");
    let n = ctrl_stroke(c).notation();
    assert(n =~= seq!['C', '-', c]);
    assert(n.take(2) =~= "C-"@);
    let s = seq!['<'] + n + seq!['>'];
    assert(s =~= seq!['<', 'C', '-', c, '>']);
    assert(s.subrange(1, s.len() - 1) =~= n);
    assert(n.skip(2) =~= seq![c]);
    assert(ascii_lower(n.skip(2)).len() == 1);
}

/// A text without white space and brackets is a sequence of character keys.
pub proof fn plain_sequence(s: Seq<char>)
    requires
        forall|i: int| 0 <= i < s.len() ==> #[trigger] s[i] != '<',
    ensures
        parsed_sequence(s) == s.map_values(|c: char| char_stroke(c)),
    decreases s.len(),
{
    if s.len() > 0 {
        let rest = s.skip(1);
        assert forall|i: int| 0 <= i < rest.len() implies #[trigger] rest[i] != '<' by {
            assert(rest[i] == s[i + 1]);
        }
        plain_sequence(rest);
        assert(s.take(1) =~= seq![s[0]]);
        assert(parsed_sequence(s) =~= s.map_values(|c: char| char_stroke(c)));
    } else {
        assert(parsed_sequence(s) =~= s.map_values(|c: char| char_stroke(c)));
    }
}

} // verus!
