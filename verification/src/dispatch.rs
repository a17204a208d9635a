//! How keystrokes and text of a platform reach the engine.
//!
//! Two paths, both ending in the same pipeline:
//!
//! 1. **Special keys** (`Esc`, arrows, `Space`, `Enter`, `Ctrl-*`, function
//!    keys) hit the host's key interceptor. [`to_core_key`] converts them, and
//!    [`dispatch_key`] feeds the engine; unknown ones fall through.
//! 2. **Printable characters** arrive through the text-input (IME) path.
//!    [`dispatch_text`] feeds them through the same pipeline and places the
//!    leftovers into the buffer in insert mode.
use crate::buffer::VimBufferMut;
use crate::drive::{all_alike, steady, what_is_shown_is_seen, Moment};
use crate::host::{env, heard_since, hears, lemma_heard_nothing, Env, VimHost};
use crate::key::{char_stroke, Key, KeyKind, Kind, Modifiers, Stroke};
use crate::state::{text_of, Ctx, KeyResult, Vim, VimState, World};
use crate::strs::{chars_of, copy_str, same_str};
use vstd::prelude::*;

verus! {

// ---- keystrokes ----------------------------------------------------------------------------------

/// A keystroke as the platform reports it: the name of the base key, and the
/// text that it would type, if any.
#[derive(Debug, PartialEq, Eq)]
pub struct Keystroke {
    pub modifiers: Modifiers,
    pub key: String,
    pub key_char: Option<String>,
    /// The function key is held.
    pub function: bool,
}

/// The upper case of an ASCII letter; anything else as it is.
pub open spec fn ascii_upper_char(c: char) -> char {
    if 'a' <= c && c <= 'z' {
        ((c as u32) - 32) as char
    } else {
        c
    }
}

fn upper_ascii_char(c: char) -> (r: char)
    ensures
        r == ascii_upper_char(c),
{
    if 'a' <= c && c <= 'z' {
        ((c as u8) - 32) as char
    } else {
        c
    }
}

/// A key name of one character stands for that character.
pub open spec fn named_key(name: Seq<char>) -> Kind {
    if name.len() == 1 {
        Kind::Char(name[0])
    } else {
        Kind::Named(name)
    }
}

/// The key that a keystroke stands for. Command chords use the base key; of
/// typed text the first character counts, but Enter and Tab are reported with
/// a control character and stay named keys.
pub open spec fn core_key(m: Modifiers, key: Seq<char>, typed: Option<Seq<char>>) -> Kind {
    let first = match typed {
        Some(s) => if s.len() > 0 {
            Some(s[0])
        } else {
            None
        },
        None => None,
    };
    if m.control || m.alt {
        named_key(key)
    } else {
        match first {
            Some(c) => if key == "enter"@ && (c == '\n' || c == '\r') {
                Kind::Named("enter"@)
            } else if key == "tab"@ && c == '\t' {
                Kind::Named("tab"@)
            } else {
                Kind::Char(c)
            },
            None => if m.shift && key.len() == 1 {
                Kind::Char(ascii_upper_char(key[0]))
            } else {
                named_key(key)
            },
        }
    }
}

fn key_named(name: &str) -> (k: KeyKind)
    ensures
        k@ == named_key(name@),
{
    let chars = chars_of(name);
    if chars.len() == 1 {
        KeyKind::Char(chars[0])
    } else {
        KeyKind::Named(copy_str(name))
    }
}

fn first_char(s: &Option<String>) -> (c: Option<char>)
    ensures
        c == match text_of(*s) {
            Some(t) => if t.len() > 0 {
                Some(t[0])
            } else {
                None
            },
            None => None,
        },
{
    match s {
        Some(t) => {
            let chars = chars_of(t.as_str());
            if chars.len() > 0 {
                Some(chars[0])
            } else {
                None
            }
        },
        None => None,
    }
}

/// Convert a platform keystroke into the engine's key model.
pub fn to_core_key(keystroke: &Keystroke) -> (k: Key)
    ensures
        k@ == (Stroke {
            modifiers: keystroke.modifiers,
            kind: core_key(keystroke.modifiers, keystroke.key@, text_of(keystroke.key_char)),
        }),
{
    let modifiers = keystroke.modifiers;
    let key = keystroke.key.as_str();
    let kind = if modifiers.control || modifiers.alt {
        key_named(key)
    } else {
        match first_char(&keystroke.key_char) {
            Some(c) => if same_str(key, "enter") && (c == '\n' || c == '\r') {
                KeyKind::Named(copy_str("enter"))
            } else if same_str(key, "tab") && c == '\t' {
                KeyKind::Named(copy_str("tab"))
            } else {
                KeyKind::Char(c)
            },
            None => {
                let chars = chars_of(key);
                if modifiers.shift && chars.len() == 1 {
                    KeyKind::Char(upper_ascii_char(chars[0]))
                } else {
                    key_named(key)
                }
            },
        }
    };
    Key { modifiers, kind }
}

// ---- text ----------------------------------------------------------------------------------------

impl World {
    /// Text placed at the cursor, and recorded for `.`.
    pub open spec fn place_text<B: VimBufferMut>(self, text: Seq<char>) -> World {
        self.with_vim(self.vim.typed(text)).type_text::<B>(text)
    }

    /// No character waits for the platform to deliver it again.
    pub open spec fn awaiting_none(self) -> World {
        self.with_vim(Vim { pending_unknown_char: None, ..self.vim })
    }

    /// One character of text: placed if the engine has declined it before,
    /// else a key, and placed where the engine declines that.
    pub open spec fn hear_char<B: VimBufferMut>(self, c: char, moments: Seq<Moment>) -> World {
        let w = self.awaiting_none();
        if self.vim.pending_unknown_char == Some(c) {
            w.place_text::<B>(seq![c])
        } else {
            let (after, r) = w.handle_key::<B>(char_stroke(c), moments);
            if r == KeyResult::Unknown {
                after.place_text::<B>(seq![c])
            } else {
                after
            }
        }
    }

    /// Text, character by character; `all` holds what the host answered on
    /// each.
    pub open spec fn hear_text<B: VimBufferMut>(
        self,
        text: Seq<char>,
        all: Seq<Seq<Moment>>,
    ) -> World
        decreases text.len(),
    {
        if text.len() == 0 {
            self
        } else {
            self.hear_text::<B>(text.drop_last(), all.drop_last()).hear_char::<B>(
                text.last(),
                all.last(),
            )
        }
    }
}

impl World {
    /// The moments are what `host` shows while one character of text is heard;
    /// there is none for a character that is only placed.
    pub open spec fn shows_char<B: VimBufferMut, H: VimHost>(
        self,
        c: char,
        host: H,
        moments: Seq<Moment>,
    ) -> bool {
        if self.vim.pending_unknown_char == Some(c) {
            moments.len() == 0
        } else {
            self.awaiting_none().shows::<B, H>(char_stroke(c), host, moments)
        }
    }

    /// The moments are what the host shows while text is heard, character by
    /// character. `hosts` is what the host has become at each character, by what
    /// it was told since the one before.
    pub open spec fn shows_text<B: VimBufferMut, H: VimHost>(
        self,
        text: Seq<char>,
        host: H,
        hosts: Seq<H>,
        all: Seq<Seq<Moment>>,
    ) -> bool
        decreases text.len(),
    {
        if text.len() == 0 {
            hosts.len() == 0 && all.len() == 0
        } else {
            let n = text.len() - 1;
            let w = self.hear_text::<B>(text.drop_last(), all.drop_last());
            &&& hosts.len() == text.len()
            &&& all.len() == text.len()
            &&& self.shows_text::<B, H>(text.drop_last(), host, hosts.drop_last(), all.drop_last())
            &&& w.shows_char::<B, H>(text.last(), hosts.last(), all.last())
            &&& if n == 0 {
                heard_since(hosts.last(), w.vim.told, host, self.vim.told)
            } else {
                heard_since(
                    hosts.last(),
                    w.vim.told,
                    hosts[n - 1],
                    self.hear_text::<B>(
                        text.drop_last().drop_last(),
                        all.drop_last().drop_last(),
                    ).vim.told,
                )
            }
        }
    }

    /// The moments are what `host` shows while text is heard.
    pub open spec fn shows_typing<B: VimBufferMut, H: VimHost>(
        self,
        text: Seq<char>,
        host: H,
        all: Seq<Seq<Moment>>,
    ) -> bool {
        exists|hosts: Seq<H>| #[trigger] self.shows_text::<B, H>(text, host, hosts, all)
    }
}

/// The host shows the same at each of the moments of a text; a character that
/// is only placed has none.
pub open spec fn all_typed_alike(all: Seq<Seq<Moment>>, env: Env) -> bool {
    forall|k: int|
        0 <= k < all.len() ==> (#[trigger] all[k]).len() == 0 || all_alike(all[k], env)
}

proof fn lemma_steady_text<B: VimBufferMut, H: VimHost>(
    w: World,
    text: Seq<char>,
    host: H,
    hosts: Seq<H>,
    all: Seq<Seq<Moment>>,
)
    requires
        steady::<H>(),
        w.shows_text::<B, H>(text, host, hosts, all),
    ensures
        all.len() == text.len(),
        hosts.len() == text.len(),
        forall|k: int| 0 <= k < hosts.len() ==> env(#[trigger] hosts[k]) == env(host),
        all_typed_alike(all, env(host)),
    decreases text.len(),
{
    if text.len() > 0 {
        let n = text.len() - 1;
        let before = text.drop_last();
        lemma_steady_text::<B, H>(w, before, host, hosts.drop_last(), all.drop_last());
        if n > 0 {
            assert(hosts.drop_last()[n - 1] == hosts[n - 1]);
        }
        assert(env(hosts.last()) == env(host));
        let u = w.hear_text::<B>(before, all.drop_last());
        if u.vim.pending_unknown_char != Some(text.last()) {
            what_is_shown_is_seen::<B, H>(
                u.awaiting_none(),
                char_stroke(text.last()),
                hosts.last(),
                all.last(),
            );
        }
        assert forall|k: int| 0 <= k < hosts.len() implies env(#[trigger] hosts[k]) == env(
            host,
        ) by {
            if k < n {
                assert(hosts.drop_last()[k] == hosts[k]);
            }
        }
        assert forall|k: int| 0 <= k < all.len() implies (#[trigger] all[k]).len() == 0
            || all_alike(all[k], env(host)) by {
            if k < n {
                assert(all.drop_last()[k] == all[k]);
            }
        }
    }
}

/// While text is heard, a host that shows the same whatever it is told shows
/// that at every moment.
pub proof fn what_is_shown_is_seen_typing<B: VimBufferMut, H: VimHost>(
    w: World,
    text: Seq<char>,
    host: H,
    all: Seq<Seq<Moment>>,
)
    requires
        w.shows_typing::<B, H>(text, host, all),
        steady::<H>(),
    ensures
        all.len() == text.len(),
        all_typed_alike(all, env(host)),
{
    let hosts = choose|hosts: Seq<H>| #[trigger] w.shows_text::<B, H>(text, host, hosts, all);
    lemma_steady_text::<B, H>(w, text, host, hosts, all);
}

/// Feed one converted key into the engine.
pub fn dispatch_key<B: VimBufferMut, H: VimHost>(
    vim: &mut VimState,
    ctx: &mut Ctx<B, H>,
    key: Key,
) -> (r: KeyResult)
    ensures
        *final(final(ctx).buf) == *final(old(ctx).buf),
        *final(final(ctx).host) == *final(old(ctx).host),
        hears(*final(ctx).host, final(vim)@.told, *old(ctx).host, old(vim)@.told),
        exists|moments: Seq<Moment>|
            moments.len() > 0 && moments[0].env == old(ctx).env() && old(ctx).world(
                *old(vim),
            ).shows::<B, H>(key@, *old(ctx).host, moments) && (
            final(ctx).world(*final(vim)),
            r,
        ) == #[trigger] old(ctx).world(*old(vim)).handle_key::<B>(key@, moments),
{
    vim.handle_key(ctx, key)
}

pub(crate) fn place_text<B: VimBufferMut, H: VimHost>(
    vim: &mut VimState,
    ctx: &mut Ctx<B, H>,
    text: &str,
)
    ensures
        *final(final(ctx).buf) == *final(old(ctx).buf),
        *final(final(ctx).host) == *final(old(ctx).host),
        hears(*final(ctx).host, final(vim)@.told, *old(ctx).host, old(vim)@.told),
        final(ctx).world(*final(vim)) == old(ctx).world(*old(vim)).place_text::<B>(text@),
        final(ctx).env() == old(ctx).env(),
{
    vim.record_typed_text(text);
    vim.insert_text_at_cursor(ctx, text);
}

fn text_char<B: VimBufferMut, H: VimHost>(vim: &mut VimState, ctx: &mut Ctx<B, H>, c: char) -> (seen:
    Ghost<Seq<Moment>>)
    ensures
        *final(final(ctx).buf) == *final(old(ctx).buf),
        *final(final(ctx).host) == *final(old(ctx).host),
        hears(*final(ctx).host, final(vim)@.told, *old(ctx).host, old(vim)@.told),
        final(ctx).world(*final(vim)) == old(ctx).world(*old(vim)).hear_char::<B>(c, seen@),
        old(ctx).world(*old(vim)).shows_char::<B, H>(c, *old(ctx).host, seen@),
{
    let ghost w = ctx.world(*vim);
    let mut one = String::new();
    one.push(c);
    proof {
        assert(one@ =~= seq![c]);
    }
    // On Linux/Windows the interceptor already declined this exact char
    // and the platform delivers it a second time as text: just place it.
    let waiting = vim.take_pending_unknown_char();
    let ghost start = ctx.world(*vim);
    proof {
        assert(start == w.awaiting_none());
    }
    if let Some(d) = waiting {
        if d == c {
            place_text(vim, ctx, one.as_str());
            return Ghost(Seq::empty());
        }
    }
    let ghost host = *ctx.host;
    let result = vim.handle_key(ctx, Key::char(c));
    let ghost after = ctx.world(*vim);
    let ghost moments = choose|moments: Seq<Moment>|
        start.shows::<B, H>(char_stroke(c), host, moments) && (after, result)
            == #[trigger] start.handle_key::<B>(char_stroke(c), moments);
    if result == KeyResult::Unknown {
        place_text(vim, ctx, one.as_str());
    }
    Ghost(moments)
}

/// Feed printable text (the text-input path) through the engine.
///
/// Characters the engine consumes (normal-mode commands, insert-mode
/// mappings like `jk`, search-prompt input) are swallowed; characters it
/// declines in insert mode are placed into the buffer at the cursor.
pub fn dispatch_text<B: VimBufferMut, H: VimHost>(
    vim: &mut VimState,
    ctx: &mut Ctx<B, H>,
    text: &str,
)
    ensures
        *final(final(ctx).buf) == *final(old(ctx).buf),
        *final(final(ctx).host) == *final(old(ctx).host),
        hears(*final(ctx).host, final(vim)@.told, *old(ctx).host, old(vim)@.told),
        exists|all: Seq<Seq<Moment>>|
            old(ctx).world(*old(vim)).shows_typing::<B, H>(text@, *old(ctx).host, all)
                && final(ctx).world(*final(vim)) == (#[trigger] old(ctx).world(*old(vim)).hear_text::<B>(
                text@,
                all,
            )).awaiting_none(),
{
    let chars = chars_of(text);
    let ghost w = ctx.world(*vim);
    let ghost host = *ctx.host;
    let ghost mut all = Seq::<Seq<Moment>>::empty();
    let ghost mut hosts = Seq::<H>::empty();
    // the host at the last character, and what it had been told by then
    let ghost mut last = *ctx.host;
    let ghost mut noted = vim@.told;
    let mut i: usize = 0;
    proof {
        assert(text@.take(0) =~= Seq::empty());
        lemma_heard_nothing(host, vim@.told);
    }
    while i < chars.len()
        invariant
            *final(ctx.buf) == *final(old(ctx).buf),
            *final(ctx.host) == *final(old(ctx).host),
            hears(*ctx.host, vim@.told, *old(ctx).host, old(vim)@.told),
            i <= chars.len(),
            chars@ == text@,
            ctx.world(*vim) == w.hear_text::<B>(text@.take(i as int), all),
            w.shows_text::<B, H>(text@.take(i as int), host, hosts, all),
            hosts.len() == i,
            heard_since(*ctx.host, vim@.told, last, noted),
            i == 0 ==> last == host && noted == w.vim.told,
            i > 0 ==> last == hosts[i - 1] && noted == w.hear_text::<B>(
                text@.take(i as int).drop_last(),
                all.drop_last(),
            ).vim.told,
        decreases chars.len() - i,
    {
        let ghost here = *ctx.host;
        let ghost told = vim@.told;
        proof {
            lemma_heard_nothing(here, told);
        }
        let Ghost(seen) = text_char(vim, ctx, chars[i]);
        proof {
            assert(text@.take(i + 1).drop_last() =~= text@.take(i as int));
            assert(all.push(seen).drop_last() =~= all);
            assert(hosts.push(here).drop_last() =~= hosts);
            all = all.push(seen);
            hosts = hosts.push(here);
            last = here;
            noted = told;
        }
        i = i + 1;
    }
    proof {
        assert(text@.take(i as int) =~= text@);
    }
    let ghost done = ctx.world(*vim);
    vim.set_pending_unknown_char(None);
    proof {
        assert(ctx.world(*vim) == done.awaiting_none());
    }
}

/// Text that the platform delivers a second time is placed, not run again.
pub proof fn declined_text_is_placed<B: VimBufferMut>(
    w: World,
    c: char,
    moments: Seq<Moment>,
)
    requires
        w.vim.pending_unknown_char == Some(c),
    ensures
        w.hear_char::<B>(c, moments) == w.awaiting_none().place_text::<B>(seq![c]),
{
}

} // verus!
