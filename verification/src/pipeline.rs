//! The key pipeline: from a key to a command.
use crate::buffer::{VimBuffer, VimBufferMut};
use crate::commands::counted_lines;
use crate::doc::{max, min};
use crate::execute::{gives_up, is_give_up};
use crate::host::{hears, Env, HostCall, VimHost};
use crate::key::{copy_keys, copy_keys_from, strokes, Key, KeyKind, Kind, Stroke};
use crate::keymap::Walk;
use crate::mode::{Mode, VisualKind};
use crate::motions::Motion;
use crate::normal::Reply;
use crate::number::{find_number, number_near};
use crate::operators::delete_chars;
use crate::ops::Operator;
use crate::record::times;
use crate::shift::plus;
use crate::state::{Ctx, KeyResult, Vim, VimState, World};
use crate::strs::{char_is_digit, digit_value, is_digit, same_str};
use crate::tables::{builtin, builtin_continues, longest_builtin, CmdKind, NormalCmd, Phase};
use vstd::prelude::*;

verus! {

/// What the pipeline does next.
pub enum ProcessOutcome {
    Consumed,
    Unknown,
    Feed(Vec<Key>),
}

/// What a key led to: it was taken, declined, or other keys are to be
/// processed in its place.
pub enum Outcome {
    Consumed,
    Unknown,
    Feed(Seq<Stroke>),
}

impl View for ProcessOutcome {
    type V = Outcome;

    open spec fn view(&self) -> Outcome {
        match self {
            ProcessOutcome::Consumed => Outcome::Consumed,
            ProcessOutcome::Unknown => Outcome::Unknown,
            ProcessOutcome::Feed(keys) => Outcome::Feed(strokes(keys@)),
        }
    }
}

// ---- parts that Normal and Visual mode share ---------------------------------------------------------

/// The key that doubles an operator, as `d` in `dd`.
pub open spec fn operator_trigger(op: Operator) -> Option<char> {
    match op {
        Operator::Delete => Some('d'),
        Operator::Change => Some('c'),
        Operator::Yank => Some('y'),
        Operator::IndentLeft => Some('<'),
        Operator::IndentRight => Some('>'),
        Operator::Lowercase => Some('u'),
        Operator::Uppercase => Some('U'),
        Operator::ToggleCase => Some('~'),
        Operator::Format => None,
    }
}

/// The operator's own key, for `dd`/`yy`/`>>` and `guu`/`g~~` doubling.
fn trigger_of(op: Operator) -> (c: Option<char>)
    ensures
        c == operator_trigger(op),
{
    match op {
        Operator::Delete => Some('d'),
        Operator::Change => Some('c'),
        Operator::Yank => Some('y'),
        Operator::IndentLeft => Some('<'),
        Operator::IndentRight => Some('>'),
        Operator::Lowercase => Some('u'),
        Operator::Uppercase => Some('U'),
        Operator::ToggleCase => Some('~'),
        Operator::Format => None,
    }
}

impl Vim {
    /// The key doubles the operator that waits: `gq` and `gw` remember how
    /// they were spelled.
    pub open spec fn doubles(self, key: Stroke) -> bool {
        match self.op {
            Some(op) => {
                let trigger = if op == Operator::Format {
                    self.format_trigger
                } else {
                    operator_trigger(op)
                };
                self.cmd_seq.len() == 0 && key.modifiers.plain() && trigger is Some && key.kind
                    == Kind::Char(trigger->0)
            },
            None => false,
        }
    }

    /// The key goes on with a count: a digit, but not a zero at its front.
    pub open spec fn counts(self, key: Stroke) -> bool {
        match key.kind {
            Kind::Char(c) => key.modifiers.plain() && is_digit(c) && (c != '0' || self.count
                is Some),
            Kind::Named(_) => false,
        }
    }

    /// One more digit of the count.
    pub open spec fn with_digit(self, c: char) -> Vim {
        let before = match self.count {
            Some(n) => n as int,
            None => 0,
        };
        Vim {
            count: Some(
                min(times(before, 10) + (c as u32 - '0' as u32), usize::MAX as int) as usize,
            ),
            ..self
        }
    }

    /// The phase in which Normal mode looks a command up.
    pub open spec fn phase(self) -> Phase {
        if self.op is Some {
            Phase::Pending
        } else {
            Phase::Normal
        }
    }
}

/// A plain key.
pub open spec fn plain_char(key: Stroke, c: char) -> bool {
    key.modifiers.plain() && key.kind == Kind::Char(c)
}

fn is_plain_char(key: &Key, c: char) -> (b: bool)
    ensures
        b == plain_char(key@, c),
{
    key.modifiers.is_plain() && key.is_char(c)
}

/// The motion of a named key.
pub open spec fn nav_motion(name: Seq<char>) -> Option<Motion> {
    if name == "left"@ {
        Some(Motion::Left)
    } else if name == "right"@ {
        Some(Motion::Right)
    } else if name == "up"@ {
        Some(Motion::Up)
    } else if name == "down"@ {
        Some(Motion::Down)
    } else if name == "home"@ {
        Some(Motion::LineStart)
    } else if name == "end"@ {
        Some(Motion::LineEnd)
    } else if name == "pageup"@ {
        Some(Motion::PageUp)
    } else if name == "pagedown"@ {
        Some(Motion::PageDown)
    } else {
        None
    }
}

fn nav_motion_of(name: &str) -> (m: Option<Motion>)
    ensures
        m == nav_motion(name@),
{
    if same_str(name, "left") {
        Some(Motion::Left)
    } else if same_str(name, "right") {
        Some(Motion::Right)
    } else if same_str(name, "up") {
        Some(Motion::Up)
    } else if same_str(name, "down") {
        Some(Motion::Down)
    } else if same_str(name, "home") {
        Some(Motion::LineStart)
    } else if same_str(name, "end") {
        Some(Motion::LineEnd)
    } else if same_str(name, "pageup") {
        Some(Motion::PageUp)
    } else if same_str(name, "pagedown") {
        Some(Motion::PageDown)
    } else {
        None
    }
}

impl World {
    /// The name of a register after `"`.
    #[verifier::opaque]
    pub open spec fn name_register(self, key: Stroke) -> World {
        let w = self.with_vim(
            Vim { register_pending: false, register: key.printable(), ..self.vim },
        );
        if key.printable() is Some {
            w
        } else {
            w.say(HostCall::Bell)
        }
    }

    /// A doubled operator: it applies to whole lines.
    #[verifier::opaque]
    pub open spec fn double_operator<B: VimBufferMut>(self) -> World {
        let w = self.without_count();
        w.complete_operator::<B>(w.counted_lines(self.vim.total_count()))
    }

    /// `<Del>`: characters deleted.
    #[verifier::opaque]
    pub open spec fn nav_delete<B: VimBufferMut>(self) -> World {
        self.with_vim(Vim { count: None, ..self.vim }).begin_edit().delete_chars::<B>(
            crate::record::or_one(self.vim.count),
            false,
        ).end_edit().bump::<B>()
    }

    /// An arrow key or the like.
    #[verifier::opaque]
    pub open spec fn nav_move<B: VimBufferMut>(self, env: Env, m: Motion) -> World {
        let w = self.with_vim(Vim { count: None, ..self.vim });
        let n = max(crate::record::or_one(self.vim.count), 1);
        if w.can_go::<B>(env.seen, m, n) {
            w.go::<B>(env.seen, m, n)
        } else {
            w.go::<B>(env.seen, m, n).say(HostCall::Bell)
        }
    }

    /// What a navigation key does; nothing when the key is none.
    pub open spec fn nav_key<B: VimBufferMut>(self, env: Env, key: Stroke) -> Option<World> {
        match key.kind {
            Kind::Named(name) => if !key.modifiers.plain() {
                None
            } else if name == "delete"@ {
                Some(self.nav_delete::<B>())
            } else {
                match nav_motion(name) {
                    Some(m) => Some(self.nav_move::<B>(env, m)),
                    None => None,
                }
            },
            Kind::Char(_) => None,
        }
    }
}

impl VimState {
    fn take_register_name(&mut self, name: Option<char>)
        ensures
            final(self)@ == (Vim { register_pending: false, register: name, ..old(self)@ }),
    {
        self.register_pending = false;
        self.register = name;
    }

    fn name_register<B: VimBufferMut, H: VimHost>(&mut self, ctx: &mut Ctx<B, H>, key: &Key)
        ensures
            *final(final(ctx).buf) == *final(old(ctx).buf),
            *final(final(ctx).host) == *final(old(ctx).host),
            hears(*final(ctx).host, final(self)@.told, *old(ctx).host, old(self)@.told),
            final(ctx).world(*final(self)) == old(ctx).world(*old(self)).name_register(key@),
    {
        proof {
            reveal(World::name_register);
        }
        let name = key.printable_char();
        self.take_register_name(name);
        if name.is_none() {
            self.bell(ctx);
        }
    }

    fn doubles(&self, key: &Key) -> (b: bool)
        ensures
            b == self@.doubles(key@),
    {
        match self.op {
            Some(op) => {
                let trigger = if op == Operator::Format {
                    self.format_trigger
                } else {
                    trigger_of(op)
                };
                match trigger {
                    Some(c) => self.cmd_seq.len() == 0 && key.modifiers.is_plain() && key.is_char(
                        c,
                    ),
                    None => false,
                }
            },
            None => false,
        }
    }

    fn double_operator<B: VimBufferMut, H: VimHost>(&mut self, ctx: &mut Ctx<B, H>)
        ensures
            *final(final(ctx).buf) == *final(old(ctx).buf),
            *final(final(ctx).host) == *final(old(ctx).host),
            hears(*final(ctx).host, final(self)@.told, *old(ctx).host, old(self)@.told),
            final(ctx).world(*final(self)) == old(ctx).world(*old(self)).double_operator::<B>(),
    {
        proof {
            reveal(World::double_operator);
        }
        let count = self.take_total_count();
        let s = counted_lines(&*ctx.buf, self.cursor.offset, count);
        self.complete_operator_with_span(ctx, &s);
    }

    /// Takes a digit of the count, if the key is one.
    fn take_digit(&mut self, key: &Key) -> (taken: bool)
        ensures
            taken == old(self)@.counts(key@),
            final(self)@ == if taken {
                old(self)@.with_digit(key@.kind->Char_0)
            } else {
                old(self)@
            },
    {
        match &key.kind {
            KeyKind::Char(c) => {
                let c = *c;
                if key.modifiers.is_plain() && char_is_digit(c) && (c != '0' || self.count.is_some())
                {
                    let before: usize = match self.count {
                        Some(n) => n,
                        None => 0,
                    };
                    let tens: usize = if before <= usize::MAX / 10 {
                        before * 10
                    } else {
                        usize::MAX
                    };
                    self.count = Some(plus(tens, digit_value(c)));
                    true
                } else {
                    false
                }
            },
            KeyKind::Named(_) => false,
        }
    }

    fn take_count(&mut self) -> (n: usize)
        ensures
            n == crate::record::or_one(old(self)@.count),
            final(self)@ == (Vim { count: None, ..old(self)@ }),
    {
        match self.count.take() {
            Some(n) => n,
            None => 1,
        }
    }

    fn nav_delete<B: VimBufferMut, H: VimHost>(&mut self, ctx: &mut Ctx<B, H>)
        ensures
            *final(final(ctx).buf) == *final(old(ctx).buf),
            *final(final(ctx).host) == *final(old(ctx).host),
            hears(*final(ctx).host, final(self)@.told, *old(ctx).host, old(self)@.told),
            final(ctx).world(*final(self)) == old(ctx).world(*old(self)).nav_delete::<B>(),
    {
        proof {
            reveal(World::nav_delete);
        }
        let count = self.take_count();
        self.begin_edit(ctx);
        delete_chars(self, ctx, count, false);
        self.end_edit();
        self.bump(ctx);
    }

    fn nav_move<B: VimBufferMut, H: VimHost>(&mut self, ctx: &mut Ctx<B, H>, m: Motion)
        ensures
            *final(final(ctx).buf) == *final(old(ctx).buf),
            *final(final(ctx).host) == *final(old(ctx).host),
            hears(*final(ctx).host, final(self)@.told, *old(ctx).host, old(self)@.told),
            final(ctx).world(*final(self)) == old(ctx).world(*old(self)).nav_move::<B>(
                old(ctx).env(),
                m,
            ),
    {
        proof {
            reveal(World::nav_move);
        }
        let count = self.take_count();
        if !self.goto_motion(ctx, m, count) {
            self.bell(ctx);
        }
    }

    /// Arrow keys etc. behave like their vim equivalents in normal/visual.
    fn navigation_key<B: VimBufferMut, H: VimHost>(&mut self, ctx: &mut Ctx<B, H>, key: &Key) -> (
    taken: bool)
        ensures
            *final(final(ctx).buf) == *final(old(ctx).buf),
            *final(final(ctx).host) == *final(old(ctx).host),
            hears(*final(ctx).host, final(self)@.told, *old(ctx).host, old(self)@.told),
            match old(ctx).world(*old(self)).nav_key::<B>(old(ctx).env(), key@) {
                Some(w) => taken && final(ctx).world(*final(self)) == w,
                None => !taken && final(ctx).world(*final(self)) == old(ctx).world(*old(self))
                    && final(ctx).env() == old(ctx).env(),
            },
    {
        match &key.kind {
            KeyKind::Named(name) => {
                if !key.modifiers.is_plain() {
                    return false;
                }
                if same_str(name.as_str(), "delete") {
                    self.nav_delete(ctx);
                    return true;
                }
                match nav_motion_of(name.as_str()) {
                    Some(m) => {
                        self.nav_move(ctx, m);
                        true
                    },
                    None => false,
                }
            },
            KeyKind::Char(_) => false,
        }
    }
}

// ---- looking commands up -----------------------------------------------------------------------------

/// What some keys stand for in a phase.
enum Found {
    Hit(CmdKind),
    Pending,
    Miss,
}

impl VimState {
    fn look_up(&self, phase: Phase, keys: &Vec<Key>) -> (f: Found)
        ensures
            match f {
                Found::Hit(kind) => builtin(phase, strokes(keys@)) == Some(kind),
                Found::Pending => builtin(phase, strokes(keys@)) is None && builtin_continues(
                    phase,
                    strokes(keys@),
                ),
                Found::Miss => builtin(phase, strokes(keys@)) is None && !builtin_continues(
                    phase,
                    strokes(keys@),
                ),
            },
    {
        match self.tables.walk(phase, keys.as_slice()) {
            Walk::Hit(kind) => Found::Hit(*kind),
            Walk::Pending => Found::Pending,
            Walk::Miss => Found::Miss,
        }
    }

    /// The keys typed so far and one more.
    fn sequence_with(&self, key: &Key) -> (v: Vec<Key>)
        ensures
            strokes(v@) == self@.cmd_seq.push(key@),
    {
        let mut v = copy_keys(&self.cmd_seq);
        v.push(key.clone());
        proof {
            assert(strokes(v@) =~= self@.cmd_seq.push(key@));
        }
        v
    }

    fn set_sequence(&mut self, keys: Vec<Key>)
        ensures
            final(self)@ == (Vim { cmd_seq: strokes(keys@), ..old(self)@ }),
    {
        self.cmd_seq = keys;
    }

    fn clear_sequence(&mut self)
        ensures
            final(self)@ == (Vim { cmd_seq: Seq::empty(), ..old(self)@ }),
    {
        self.cmd_seq = Vec::new();
        proof {
            assert(strokes(self.cmd_seq@) =~= Seq::<Stroke>::empty());
        }
    }

    fn phase(&self) -> (p: Phase)
        ensures
            p == self@.phase(),
    {
        if self.op.is_some() {
            Phase::Pending
        } else {
            Phase::Normal
        }
    }
}

/// The spelling of the format operator: the last key of `gq` and `gw`.
pub open spec fn format_spelling(keys: Seq<Stroke>) -> char {
    if keys.len() > 0 && keys.last().kind == Kind::Char('w') {
        'w'
    } else {
        'q'
    }
}

impl Vim {
    /// The keys of a command are complete.
    pub open spec fn sequence_done(self, keys: Seq<Stroke>, kind: CmdKind) -> Vim {
        Vim {
            cmd_seq: Seq::empty(),
            format_trigger: if kind == CmdKind::Operator(Operator::Format) {
                Some(format_spelling(keys))
            } else {
                self.format_trigger
            },
            ..self
        }
    }
}

impl World {
    /// One more key of a command of several keys. When no command goes on
    /// like that, the longest part that is a command is done and the rest
    /// processed anew.
    #[verifier::opaque]
    pub open spec fn sequence_key<B: VimBufferMut>(
        self,
        env: Env,
        phase: Phase,
        key: Stroke,
        replies: Seq<Reply>,
    ) -> (World, Outcome) {
        let keys = self.vim.cmd_seq.push(key);
        let cleared = self.with_vim(Vim { cmd_seq: Seq::empty(), ..self.vim });
        match builtin(phase, keys) {
            Some(kind) => (
                self.with_vim(self.vim.sequence_done(keys, kind)).command::<B>(env, kind, replies),
                Outcome::Consumed,
            ),
            None => if builtin_continues(phase, keys) {
                (self.with_vim(Vim { cmd_seq: keys, ..self.vim }), Outcome::Consumed)
            } else {
                cleared.broken_sequence::<B>(env, phase, keys, replies)
            },
        }
    }

    /// Keys that no command goes on like.
    #[verifier::opaque]
    pub open spec fn broken_sequence<B: VimBufferMut>(
        self,
        env: Env,
        phase: Phase,
        keys: Seq<Stroke>,
        replies: Seq<Reply>,
    ) -> (World, Outcome) {
        let n = longest_builtin(phase, keys, keys.len() as int);
        if n > 0 {
            (
                self.command::<B>(env, builtin(phase, keys.take(n))->0, replies),
                Outcome::Feed(keys.skip(n)),
            )
        } else if phase == Phase::Visual {
            (self.say(HostCall::Bell), Outcome::Consumed)
        } else {
            (self.say(HostCall::Bell), Outcome::Feed(keys.skip(1)))
        }
    }

    /// A chord that finds nothing to do is left to the host: `<C-a>` and
    /// `<C-x>` where there is no number to count.
    pub open spec fn spares(self, kind: CmdKind) -> bool {
        (kind == CmdKind::Normal(NormalCmd::IncrementNumber) || kind == CmdKind::Normal(
            NormalCmd::DecrementNumber,
        )) && number_near(self.doc, self.cursor()) is None
    }

    /// The first key of a command.
    #[verifier::opaque]
    pub open spec fn first_key<B: VimBufferMut>(
        self,
        env: Env,
        phase: Phase,
        key: Stroke,
        replies: Seq<Reply>,
    ) -> (World, Outcome) {
        let keys = seq![key];
        match builtin(phase, keys) {
            Some(kind) => (
                self.command::<B>(env, kind, replies),
                if self.spares(kind) {
                    Outcome::Unknown
                } else {
                    Outcome::Consumed
                },
            ),
            None => if builtin_continues(phase, keys) {
                (
                    self.with_vim(Vim { cmd_seq: self.vim.cmd_seq.push(key), ..self.vim }),
                    Outcome::Consumed,
                )
            } else if key.modifiers.control || key.modifiers.alt {
                (self, Outcome::Unknown)
            } else if phase == Phase::Visual {
                (self.say(HostCall::Bell), Outcome::Consumed)
            } else {
                (self.reset_pending().say(HostCall::Bell), Outcome::Consumed)
            },
        }
    }
}

proof fn lemma_sequence_hit<B: VimBufferMut>(
    w: World,
    env: Env,
    phase: Phase,
    key: Stroke,
    replies: Seq<Reply>,
)
    requires
        builtin(phase, w.vim.cmd_seq.push(key)) is Some,
    ensures
        ({
            let keys = w.vim.cmd_seq.push(key);
            let kind = builtin(phase, keys)->0;
            w.sequence_key::<B>(env, phase, key, replies) == (
                w.with_vim(w.vim.sequence_done(keys, kind)).command::<B>(env, kind, replies),
                Outcome::Consumed,
            )
        }),
{
    reveal(World::sequence_key);
}

proof fn lemma_sequence_goes_on<B: VimBufferMut>(w: World, env: Env, phase: Phase, key: Stroke)
    requires
        builtin(phase, w.vim.cmd_seq.push(key)) is None,
        builtin_continues(phase, w.vim.cmd_seq.push(key)),
    ensures
        forall|replies: Seq<Reply>| #[trigger]
            w.sequence_key::<B>(env, phase, key, replies) == (
                w.with_vim(Vim { cmd_seq: w.vim.cmd_seq.push(key), ..w.vim }),
                Outcome::Consumed,
            ),
{
    reveal(World::sequence_key);
}

proof fn lemma_sequence_breaks<B: VimBufferMut>(
    w: World,
    env: Env,
    phase: Phase,
    key: Stroke,
    replies: Seq<Reply>,
)
    requires
        builtin(phase, w.vim.cmd_seq.push(key)) is None,
        !builtin_continues(phase, w.vim.cmd_seq.push(key)),
    ensures
        w.sequence_key::<B>(env, phase, key, replies) == w.with_vim(
            Vim { cmd_seq: Seq::empty(), ..w.vim },
        ).broken_sequence::<B>(env, phase, w.vim.cmd_seq.push(key), replies),
{
    reveal(World::sequence_key);
}

impl VimState {
    fn sequence_done(&mut self, keys: &Vec<Key>, kind: CmdKind)
        ensures
            final(self)@ == old(self)@.sequence_done(strokes(keys@), kind),
    {
        if kind == CmdKind::Operator(Operator::Format) {
            // remember the gq/gw spelling (execute_command reads it for the
            // linewise doubling)
            proof {
                if keys.len() > 0 {
                    assert(strokes(keys@).last() == keys@[keys.len() - 1]@);
                }
            }
            self.format_trigger = Some(
                if keys.len() > 0 && keys[keys.len() - 1].is_char('w') {
                    'w'
                } else {
                    'q'
                },
            );
            self.clear_sequence();
        } else {
            self.clear_sequence();
        }
    }

    fn complete_sequence<B: VimBufferMut, H: VimHost>(
        &mut self,
        ctx: &mut Ctx<B, H>,
        keys: &Vec<Key>,
        kind: CmdKind,
    ) -> (replies: Ghost<Seq<Reply>>)
        ensures
            *final(final(ctx).buf) == *final(old(ctx).buf),
            *final(final(ctx).host) == *final(old(ctx).host),
            hears(*final(ctx).host, final(self)@.told, *old(ctx).host, old(self)@.told),
            final(ctx).world(*final(self)) == ({
                let w = old(ctx).world(*old(self));
                w.with_vim(w.vim.sequence_done(strokes(keys@), kind)).command::<B>(
                    old(ctx).env(),
                    kind,
                    replies@,
                )
            }),
    {
        self.sequence_done(keys, kind);
        self.execute_command(ctx, kind)
    }

    fn broken_sequence<B: VimBufferMut, H: VimHost>(
        &mut self,
        ctx: &mut Ctx<B, H>,
        phase: Phase,
        keys: &Vec<Key>,
    ) -> (r: (ProcessOutcome, Ghost<Seq<Reply>>))
        requires
            keys.len() > 0,
        ensures
            *final(final(ctx).buf) == *final(old(ctx).buf),
            *final(final(ctx).host) == *final(old(ctx).host),
            hears(*final(ctx).host, final(self)@.told, *old(ctx).host, old(self)@.told),
            (final(ctx).world(*final(self)), r.0@) == old(ctx).world(*old(self)).broken_sequence::<
                B,
            >(old(ctx).env(), phase, strokes(keys@), r.1@),
    {
        proof {
            reveal(World::broken_sequence);
            assert(strokes(keys@).len() == keys.len());
        }
        // execute the longest terminal prefix, re-feed the rest
        match self.tables.longest_terminal(phase, keys.as_slice()) {
            Some((n, kind)) => {
                let rest = copy_keys_from(keys, n);
                let replies = self.execute_command(ctx, kind);
                (ProcessOutcome::Feed(rest), replies)
            },
            None => {
                self.bell(ctx);
                if phase == Phase::Visual {
                    (ProcessOutcome::Consumed, Ghost(Seq::empty()))
                } else {
                    // nothing matched: drop the first key, retry the rest
                    (ProcessOutcome::Feed(copy_keys_from(keys, 1)), Ghost(Seq::empty()))
                }
            },
        }
    }

    fn sequence_key<B: VimBufferMut, H: VimHost>(
        &mut self,
        ctx: &mut Ctx<B, H>,
        phase: Phase,
        key: &Key,
    ) -> (r: (ProcessOutcome, Ghost<Seq<Reply>>))
        ensures
            *final(final(ctx).buf) == *final(old(ctx).buf),
            *final(final(ctx).host) == *final(old(ctx).host),
            hears(*final(ctx).host, final(self)@.told, *old(ctx).host, old(self)@.told),
            (final(ctx).world(*final(self)), r.0@) == old(ctx).world(*old(self)).sequence_key::<B>(
                old(ctx).env(),
                phase,
                key@,
                r.1@,
            ),
    {
        let keys = self.sequence_with(key);
        proof {
            assert(strokes(keys@).len() == keys.len());
        }
        match self.look_up(phase, &keys) {
            Found::Hit(kind) => {
                let replies = self.complete_sequence(ctx, &keys, kind);
                proof {
                    lemma_sequence_hit::<B>(
                        old(ctx).world(*old(self)),
                        old(ctx).env(),
                        phase,
                        key@,
                        replies@,
                    );
                }
                (ProcessOutcome::Consumed, replies)
            },
            Found::Pending => {
                self.set_sequence(keys);
                proof {
                    lemma_sequence_goes_on::<B>(
                        old(ctx).world(*old(self)),
                        old(ctx).env(),
                        phase,
                        key@,
                    );
                }
                (ProcessOutcome::Consumed, Ghost(Seq::empty()))
            },
            Found::Miss => {
                self.clear_sequence();
                let r = self.broken_sequence(ctx, phase, &keys);
                proof {
                    lemma_sequence_breaks::<B>(
                        old(ctx).world(*old(self)),
                        old(ctx).env(),
                        phase,
                        key@,
                        r.1@,
                    );
                }
                r
            },
        }
    }

    fn push_sequence(&mut self, key: &Key)
        ensures
            final(self)@ == (Vim { cmd_seq: old(self)@.cmd_seq.push(key@), ..old(self)@ }),
    {
        let keys = self.sequence_with(key);
        self.set_sequence(keys);
    }

    fn spares<B: VimBuffer>(&self, buf: &B, kind: &CmdKind) -> (b: bool)
        ensures
            forall|w: World|
                w.doc == buf.doc() && w.vim == self@ ==> b == #[trigger] w.spares(*kind),
    {
        match kind {
            CmdKind::Normal(NormalCmd::IncrementNumber)
            | CmdKind::Normal(NormalCmd::DecrementNumber) => {
                find_number(buf, self.cursor.offset).is_none()
            },
            _ => false,
        }
    }

    fn first_key<B: VimBufferMut, H: VimHost>(
        &mut self,
        ctx: &mut Ctx<B, H>,
        phase: Phase,
        key: &Key,
    ) -> (r: (ProcessOutcome, Ghost<Seq<Reply>>))
        ensures
            *final(final(ctx).buf) == *final(old(ctx).buf),
            *final(final(ctx).host) == *final(old(ctx).host),
            hears(*final(ctx).host, final(self)@.told, *old(ctx).host, old(self)@.told),
            (final(ctx).world(*final(self)), r.0@) == old(ctx).world(*old(self)).first_key::<B>(
                old(ctx).env(),
                phase,
                key@,
                r.1@,
            ),
    {
        proof {
            reveal(World::first_key);
        }
        let mut keys: Vec<Key> = Vec::new();
        keys.push(key.clone());
        proof {
            assert(strokes(keys@) =~= seq![key@]);
        }
        match self.look_up(phase, &keys) {
            Found::Hit(kind) => {
                let spared = self.spares(&*ctx.buf, &kind);
                let replies = self.execute_command(ctx, kind);
                if spared {
                    (ProcessOutcome::Unknown, replies)
                } else {
                    (ProcessOutcome::Consumed, replies)
                }
            },
            Found::Pending => {
                self.push_sequence(key);
                (ProcessOutcome::Consumed, Ghost(Seq::empty()))
            },
            Found::Miss => {
                if key.modifiers.control || key.modifiers.alt {
                    return (ProcessOutcome::Unknown, Ghost(Seq::empty()));
                }
                if phase == Phase::Visual {
                    self.bell(ctx);
                } else {
                    self.reset_pending();
                    self.bell(ctx);
                }
                (ProcessOutcome::Consumed, Ghost(Seq::empty()))
            },
        }
    }
}

// ---- Normal mode -----------------------------------------------------------------------------------------

impl World {
    /// `<Esc>` in Normal mode: nothing waits any more, and highlights that
    /// are shown are dismissed.
    #[verifier::opaque]
    pub open spec fn give_up(self) -> World {
        let v = self.vim.reset_pending().discard_record();
        if v.search.matches.len() > 0 {
            self.with_vim(v.without_highlights())
        } else {
            self.with_vim(v)
        }
    }

    /// A key in Normal mode when nothing of a command was typed yet.
    #[verifier::opaque]
    pub open spec fn fresh_key<B: VimBufferMut>(
        self,
        env: Env,
        key: Stroke,
        replies: Seq<Reply>,
    ) -> (World, Outcome) {
        if self.vim.counts(key) {
            (self.with_vim(self.vim.with_digit(key.kind->Char_0)), Outcome::Consumed)
        } else if plain_char(key, '"') {
            (self.with_vim(Vim { register_pending: true, ..self.vim }), Outcome::Consumed)
        } else if gives_up(key) {
            (self.give_up(), Outcome::Consumed)
        } else if plain_char(key, '/') {
            (self.with_vim(self.vim.begin_cmdline('/')), Outcome::Consumed)
        } else if plain_char(key, '?') {
            (self.with_vim(self.vim.begin_cmdline('?')), Outcome::Consumed)
        } else if plain_char(key, ':') {
            (self.with_vim(self.vim.begin_cmdline(':')), Outcome::Consumed)
        } else {
            match self.nav_key::<B>(env, key) {
                Some(w) => (w, Outcome::Consumed),
                None => self.first_key::<B>(env, self.vim.phase(), key, replies),
            }
        }
    }

    /// A key in Normal mode.
    #[verifier::opaque]
    pub open spec fn normal_key<B: VimBufferMut>(
        self,
        env: Env,
        key: Stroke,
        replies: Seq<Reply>,
    ) -> (World, Outcome) {
        if self.vim.char_arg_cmd is Some {
            (self.complete_char::<B>(env, key), Outcome::Consumed)
        } else if self.vim.register_pending {
            (self.name_register(key), Outcome::Consumed)
        } else if self.vim.doubles(key) {
            (self.double_operator::<B>(), Outcome::Consumed)
        } else if self.vim.cmd_seq.len() > 0 {
            self.sequence_key::<B>(env, self.vim.phase(), key, replies)
        } else {
            self.fresh_key::<B>(env, key, replies)
        }
    }
}

impl VimState {
    fn drop_input(&mut self)
        ensures
            final(self)@ == old(self)@.reset_pending().discard_record(),
    {
        self.reset_pending();
        self.discard_change_record();
    }

    fn give_up<B: VimBufferMut, H: VimHost>(&mut self, ctx: &mut Ctx<B, H>)
        ensures
            *final(final(ctx).buf) == *final(old(ctx).buf),
            *final(final(ctx).host) == *final(old(ctx).host),
            hears(*final(ctx).host, final(self)@.told, *old(ctx).host, old(self)@.told),
            final(ctx).world(*final(self)) == old(ctx).world(*old(self)).give_up(),
    {
        proof {
            reveal(World::give_up);
        }
        self.drop_input();
        // `:noh` semantics — the next search or `n`/`N` re-publishes them
        if self.search.last_matches.len() > 0 {
            crate::search::clear_highlights(self, ctx);
        }
    }

    fn await_register(&mut self)
        ensures
            final(self)@ == (Vim { register_pending: true, ..old(self)@ }),
    {
        self.register_pending = true;
    }

    fn fresh_key<B: VimBufferMut, H: VimHost>(&mut self, ctx: &mut Ctx<B, H>, key: &Key) -> (r: (
        ProcessOutcome,
        Ghost<Seq<Reply>>,
    ))
        ensures
            *final(final(ctx).buf) == *final(old(ctx).buf),
            *final(final(ctx).host) == *final(old(ctx).host),
            hears(*final(ctx).host, final(self)@.told, *old(ctx).host, old(self)@.told),
            (final(ctx).world(*final(self)), r.0@) == old(ctx).world(*old(self)).fresh_key::<B>(
                old(ctx).env(),
                key@,
                r.1@,
            ),
    {
        proof {
            reveal(World::fresh_key);
        }
        // count digits; 0 falls through to the trie (line-start motion)
        if self.take_digit(key) {
            return (ProcessOutcome::Consumed, Ghost(Seq::empty()));
        }
        // register prefix
        if is_plain_char(key, '"') {
            self.await_register();
            return (ProcessOutcome::Consumed, Ghost(Seq::empty()));
        }
        // escape clears pending state
        if is_give_up(key) {
            self.give_up(ctx);
            return (ProcessOutcome::Consumed, Ghost(Seq::empty()));
        }
        // search prompts & the Ex command line
        if is_plain_char(key, '/') {
            self.begin_cmdline('/');
            return (ProcessOutcome::Consumed, Ghost(Seq::empty()));
        }
        if is_plain_char(key, '?') {
            self.begin_cmdline('?');
            return (ProcessOutcome::Consumed, Ghost(Seq::empty()));
        }
        if is_plain_char(key, ':') {
            self.begin_cmdline(':');
            return (ProcessOutcome::Consumed, Ghost(Seq::empty()));
        }
        // arrow / navigation keys
        if self.navigation_key(ctx, key) {
            return (ProcessOutcome::Consumed, Ghost(Seq::empty()));
        }
        // the command trie
        let phase = self.phase();
        self.first_key(ctx, phase, key)
    }

    fn normal_key<B: VimBufferMut, H: VimHost>(&mut self, ctx: &mut Ctx<B, H>, key: &Key) -> (r: (
        ProcessOutcome,
        Ghost<Seq<Reply>>,
    ))
        ensures
            *final(final(ctx).buf) == *final(old(ctx).buf),
            *final(final(ctx).host) == *final(old(ctx).host),
            hears(*final(ctx).host, final(self)@.told, *old(ctx).host, old(self)@.told),
            (final(ctx).world(*final(self)), r.0@) == old(ctx).world(*old(self)).normal_key::<B>(
                old(ctx).env(),
                key@,
                r.1@,
            ),
    {
        proof {
            reveal(World::normal_key);
        }
        // complete a pending char-argument
        if self.char_arg_cmd.is_some() {
            self.complete_char_arg(ctx, key);
            return (ProcessOutcome::Consumed, Ghost(Seq::empty()));
        }
        if self.register_pending {
            self.name_register(ctx, key);
            return (ProcessOutcome::Consumed, Ghost(Seq::empty()));
        }
        // operator doubling: dd / yy / >> / guu / g~~ / gqq / gww ...
        if self.doubles(key) {
            self.double_operator(ctx);
            return (ProcessOutcome::Consumed, Ghost(Seq::empty()));
        }
        // a pending trie walk
        if self.cmd_seq.len() > 0 {
            let phase = self.phase();
            return self.sequence_key(ctx, phase, key);
        }
        self.fresh_key(ctx, key)
    }
}

// ---- Visual mode -----------------------------------------------------------------------------------------

impl Vim {
    /// `:` on a selection: the prompt begins with its lines, and the selection
    /// stays while the prompt is open.
    pub open spec fn prompt_on_selection(self) -> Vim {
        let kind = match self.mode {
            Mode::Visual { kind } => kind,
            _ => VisualKind::Char,
        };
        let anchor = match self.visual_anchor {
            Some(anchor) => anchor,
            None => self.cursor.offset,
        };
        let v = Vim { cmdline_visual: Some((kind, anchor)), ..self }.begin_cmdline(':');
        Vim {
            cmdline: crate::cmdline::Prompt {
                buffer: v.cmdline.buffer + "'<,'>"@,
                ..v.cmdline
            },
            ..v
        }
    }
}

impl World {
    /// A key in Visual mode when nothing of a command was typed yet.
    #[verifier::opaque]
    pub open spec fn fresh_visual_key<B: VimBufferMut>(
        self,
        env: Env,
        key: Stroke,
        replies: Seq<Reply>,
    ) -> (World, Outcome) {
        if self.vim.counts(key) {
            (self.with_vim(self.vim.with_digit(key.kind->Char_0)), Outcome::Consumed)
        } else if plain_char(key, '"') {
            (self.with_vim(Vim { register_pending: true, ..self.vim }), Outcome::Consumed)
        } else if plain_char(key, ':') {
            (self.with_vim(self.vim.prompt_on_selection()), Outcome::Consumed)
        } else if self.vim.mode == (Mode::Visual { kind: VisualKind::Block }) && (plain_char(
            key,
            'I',
        ) || plain_char(key, 'A')) {
            (self.insert_block(plain_char(key, 'A')), Outcome::Consumed)
        } else {
            match self.nav_key::<B>(env, key) {
                Some(w) => (w, Outcome::Consumed),
                None => self.first_key::<B>(env, Phase::Visual, key, replies),
            }
        }
    }

    /// A key in Visual mode.
    #[verifier::opaque]
    pub open spec fn visual_key<B: VimBufferMut>(
        self,
        env: Env,
        key: Stroke,
        replies: Seq<Reply>,
    ) -> (World, Outcome) {
        if self.vim.char_arg_cmd is Some {
            (self.complete_char::<B>(env, key), Outcome::Consumed)
        } else if self.vim.register_pending {
            (self.name_register(key), Outcome::Consumed)
        } else if gives_up(key) {
            (self.reset_pending().exit_visual(), Outcome::Consumed)
        } else if self.vim.cmd_seq.len() > 0 {
            self.sequence_key::<B>(env, Phase::Visual, key, replies)
        } else {
            self.fresh_visual_key::<B>(env, key, replies)
        }
    }
}

impl VimState {
    fn keep_selection(&mut self)
        ensures
            final(self)@ == (Vim {
                cmdline_visual: Some(
                    (
                        match old(self)@.mode {
                            Mode::Visual { kind } => kind,
                            _ => VisualKind::Char,
                        },
                        match old(self)@.visual_anchor {
                            Some(anchor) => anchor,
                            None => old(self)@.cursor.offset,
                        },
                    ),
                ),
                ..old(self)@
            }),
    {
        let kind = match self.mode {
            Mode::Visual { kind } => kind,
            _ => VisualKind::Char,
        };
        let anchor: usize = match self.visual_anchor {
            Some(anchor) => anchor,
            None => self.cursor.offset,
        };
        self.cmdline_visual = Some((kind, anchor));
    }

    fn prompt_on_selection(&mut self)
        ensures
            final(self)@ == old(self)@.prompt_on_selection(),
    {
        self.keep_selection();
        self.begin_cmdline(':');
        self.cmdline.type_str("'<,'>");
    }

    fn fresh_visual_key<B: VimBufferMut, H: VimHost>(
        &mut self,
        ctx: &mut Ctx<B, H>,
        key: &Key,
    ) -> (r: (ProcessOutcome, Ghost<Seq<Reply>>))
        ensures
            *final(final(ctx).buf) == *final(old(ctx).buf),
            *final(final(ctx).host) == *final(old(ctx).host),
            hears(*final(ctx).host, final(self)@.told, *old(ctx).host, old(self)@.told),
            (final(ctx).world(*final(self)), r.0@) == old(ctx).world(*old(self)).fresh_visual_key::<
                B,
            >(old(ctx).env(), key@, r.1@),
    {
        proof {
            reveal(World::fresh_visual_key);
        }
        if self.take_digit(key) {
            return (ProcessOutcome::Consumed, Ghost(Seq::empty()));
        }
        if is_plain_char(key, '"') {
            self.await_register();
            return (ProcessOutcome::Consumed, Ghost(Seq::empty()));
        }
        // `:` in visual mode seeds the cmdline with '<,'>; Esc at the prompt
        // returns to the selection, executing it drops to normal
        if is_plain_char(key, ':') {
            self.prompt_on_selection();
            return (ProcessOutcome::Consumed, Ghost(Seq::empty()));
        }
        // visual-block I/A: insert at the block edge on every row
        if self.mode == (Mode::Visual { kind: VisualKind::Block }) && (is_plain_char(key, 'I')
            || is_plain_char(key, 'A')) {
            let append = is_plain_char(key, 'A');
            self.begin_block_insert(ctx, append);
            return (ProcessOutcome::Consumed, Ghost(Seq::empty()));
        }
        if self.navigation_key(ctx, key) {
            return (ProcessOutcome::Consumed, Ghost(Seq::empty()));
        }
        self.first_key(ctx, Phase::Visual, key)
    }

    fn visual_key<B: VimBufferMut, H: VimHost>(&mut self, ctx: &mut Ctx<B, H>, key: &Key) -> (r: (
        ProcessOutcome,
        Ghost<Seq<Reply>>,
    ))
        ensures
            *final(final(ctx).buf) == *final(old(ctx).buf),
            *final(final(ctx).host) == *final(old(ctx).host),
            hears(*final(ctx).host, final(self)@.told, *old(ctx).host, old(self)@.told),
            (final(ctx).world(*final(self)), r.0@) == old(ctx).world(*old(self)).visual_key::<B>(
                old(ctx).env(),
                key@,
                r.1@,
            ),
    {
        proof {
            reveal(World::visual_key);
        }
        if self.char_arg_cmd.is_some() {
            self.complete_char_arg(ctx, key);
            return (ProcessOutcome::Consumed, Ghost(Seq::empty()));
        }
        if self.register_pending {
            self.name_register(ctx, key);
            return (ProcessOutcome::Consumed, Ghost(Seq::empty()));
        }
        if is_give_up(key) {
            self.reset_pending();
            self.exit_visual(ctx);
            return (ProcessOutcome::Consumed, Ghost(Seq::empty()));
        }
        if self.cmd_seq.len() > 0 {
            return self.sequence_key(ctx, Phase::Visual, key);
        }
        self.fresh_visual_key(ctx, key)
    }
}

// ---- all modes ---------------------------------------------------------------------------------------------

/// What becomes of a key that insert mode took or declined.
pub open spec fn outcome_of(r: KeyResult) -> Outcome {
    if r == KeyResult::Consumed {
        Outcome::Consumed
    } else {
        Outcome::Unknown
    }
}

impl World {
    /// A key in the current mode.
    #[verifier::opaque]
    pub open spec fn process_key<B: VimBufferMut>(
        self,
        env: Env,
        key: Stroke,
        replies: Seq<Reply>,
    ) -> (World, Outcome) {
        match self.vim.mode {
            Mode::Normal => self.normal_key::<B>(env, key, replies),
            Mode::Visual { .. } => self.visual_key::<B>(env, key, replies),
            Mode::Insert | Mode::Replace => {
                let r = self.insert_key::<B>(env, key);
                (r.0, outcome_of(r.1))
            },
            Mode::CommandLine { .. } => (self.cmdline_key::<B>(key), Outcome::Consumed),
        }
    }
}

impl VimState {
    pub(crate) fn process_key<B: VimBufferMut, H: VimHost>(
        &mut self,
        ctx: &mut Ctx<B, H>,
        key: &Key,
    ) -> (r: (ProcessOutcome, Ghost<Seq<Reply>>))
        ensures
            *final(final(ctx).buf) == *final(old(ctx).buf),
            *final(final(ctx).host) == *final(old(ctx).host),
            hears(*final(ctx).host, final(self)@.told, *old(ctx).host, old(self)@.told),
            (final(ctx).world(*final(self)), r.0@) == old(ctx).world(*old(self)).process_key::<B>(
                old(ctx).env(),
                key@,
                r.1@,
            ),
    {
        proof {
            reveal(World::process_key);
        }
        match self.mode {
            Mode::Normal => self.normal_key(ctx, key),
            Mode::Visual { .. } => self.visual_key(ctx, key),
            Mode::Insert | Mode::Replace => {
                let r = self.insert_key(ctx, key);
                if r == KeyResult::Consumed {
                    (ProcessOutcome::Consumed, Ghost(Seq::empty()))
                } else {
                    (ProcessOutcome::Unknown, Ghost(Seq::empty()))
                }
            },
            Mode::CommandLine { .. } => {
                let _ = self.cmdline_key(ctx, key);
                (ProcessOutcome::Consumed, Ghost(Seq::empty()))
            },
        }
    }
}

} // verus!
