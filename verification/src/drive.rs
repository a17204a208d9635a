//! The entry of the engine: one key from the host, and all that follows it.
use crate::buffer::VimBufferMut;
use crate::host::{
    all_keep_clip, all_keep_seen, env, heard_since, hears, lemma_heard_nothing, Calls, Env, HostCall,
    VimHost,
};
use crate::key::{char_stroke, no_modifiers, strokes, Key, KeyKind, Kind, Modifiers, Stroke};
use crate::keymap::{looked_up, Lookup, MappingMatch, ModeClass, Rhs};
use crate::mode::Mode;
use crate::normal::Reply;
use crate::pipeline::{Outcome, ProcessOutcome};
use crate::replay::text_marker;
use crate::state::{steps, texts_of, Ctx, KeyResult, Step, Vim, VimState, World};
use crate::tables::{class_of_mode, mapping_class_for};
use vstd::prelude::*;

verus! {

// ---- keys as they arrive ---------------------------------------------------------------------------

/// A key as the engine sees it. An escape is an escape no matter which
/// modifiers are held, the space bar is a character, and the shift flag of a
/// printable key is dropped: the character says it already.
pub open spec fn normalized(key: Stroke) -> Stroke {
    if key.kind == Kind::Named("escape"@) {
        Stroke { modifiers: no_modifiers(), ..key }
    } else {
        let k = key.canonical();
        if k.modifiers.plain() && k.kind is Char {
            Stroke { modifiers: no_modifiers(), ..k }
        } else {
            k
        }
    }
}

fn normalize(key: Key) -> (k: Key)
    ensures
        k@ == normalized(key@),
{
    // runs *before* the Cmd passthrough so `<D-Esc>` still exits insert mode
    if key.is_named("escape") {
        return Key { modifiers: Modifiers::none(), kind: key.kind };
    }
    let key = key.canonical();
    if key.modifiers.is_plain() {
        match key.kind {
            KeyKind::Char(c) => Key::char(c),
            KeyKind::Named(name) => Key { modifiers: key.modifiers, kind: KeyKind::Named(name) },
        }
    } else {
        key
    }
}

// ---- one turn of the queue -------------------------------------------------------------------------------

/// No key may lead to more turns than this.
pub const TURN_LIMIT: usize = 500;

/// No mapping may lead through more mappings than this.
pub const MAP_LIMIT: usize = 100;

/// What the host shows and answers in one turn.
pub struct Moment {
    pub env: Env,
    pub replies: Seq<Reply>,
}

/// How a turn ends.
pub enum Turn {
    /// The queue goes on; whether a key was declined.
    More(World, bool),
    /// The queue is left: at a prompt, where keys come one by one.
    Leave(World, bool),
    /// The key is done with.
    Stop(World),
}

impl Vim {
    /// A mapping takes the place of the whole queue.
    pub open spec fn expanded(self, rhs: Rhs) -> Vim {
        Vim {
            pending_keys: rhs.keys,
            no_remap_left: if rhs.noremap {
                rhs.keys.len() as usize
            } else {
                self.no_remap_left
            },
            expanding_mapping: true,
            map_depth: if self.map_depth < usize::MAX {
                (self.map_depth + 1) as usize
            } else {
                self.map_depth
            },
            ..self
        }
    }

    /// The queue dropped.
    pub open spec fn without_queue(self) -> Vim {
        Vim { pending_keys: Seq::empty(), ..self }
    }

    /// Nothing is replayed any more.
    pub open spec fn end_replay(self) -> Vim {
        Vim { replaying: false, replay_texts: Seq::empty(), ..self }
    }

    /// After a key: one that was declined is not recorded, and keys that are
    /// to be processed in its place come first.
    #[verifier::opaque]
    pub open spec fn settled(self, outcome: Outcome) -> Vim {
        match outcome {
            Outcome::Consumed => self,
            Outcome::Unknown => self.unrecord(),
            Outcome::Feed(keys) => Vim { pending_keys: keys + self.pending_keys, ..self },
        }
    }

    /// At a prompt that the user opened, where keys come one by one. A mapping
    /// or a replay that opens a prompt goes on at it.
    pub open spec fn at_prompt(self) -> bool {
        self.mode is CommandLine && !self.replaying && !self.expanding_mapping
    }

    /// The queue has been worked off.
    #[verifier::opaque]
    pub open spec fn queue_done(self) -> Vim {
        let v = Vim { map_depth: 0, ..self };
        if v.pending_keys.len() > 0 {
            v
        } else if v.replaying {
            Vim {
                expanding_mapping: false,
                recording: Seq::empty(),
                recording_mutated: false,
                ..v.end_replay()
            }
        } else {
            Vim { expanding_mapping: false, ..v }
        }
    }
}

impl World {
    /// A mapping that matches the queue.
    #[verifier::opaque]
    pub open spec fn expand_mapping(self, rhs: Rhs) -> Turn {
        let v = self.vim.expanded(rhs);
        if v.map_depth > MAP_LIMIT {
            Turn::Stop(self.with_vim(v.without_queue().reset_pending()).say(HostCall::Bell))
        } else {
            Turn::More(self.with_vim(v), false)
        }
    }

    /// Recorded text that is placed again.
    #[verifier::opaque]
    pub open spec fn replay_text<B: VimBufferMut>(self) -> World {
        let texts = self.vim.replay_texts;
        if texts.len() > 0 {
            self.with_vim(Vim { replay_texts: texts.drop_first(), ..self.vim }).type_text::<B>(
                texts[0],
            )
        } else {
            self
        }
    }

    /// A key of the queue, recorded and processed. A key that is declined is
    /// not recorded: its text is, when the host places it.
    #[verifier::opaque]
    pub open spec fn turn_key<B: VimBufferMut>(self, moment: Moment, key: Stroke) -> Turn {
        let (w, outcome) = self.with_vim(self.vim.record(Step::Key(key))).process_key::<B>(
            moment.env,
            key,
            moment.replies,
        );
        let u = w.with_vim(w.vim.settled(outcome));
        if u.vim.at_prompt() {
            Turn::Leave(u, outcome is Unknown)
        } else {
            Turn::More(u, outcome is Unknown)
        }
    }

    /// The first key of the queue taken.
    #[verifier::opaque]
    pub open spec fn take_front<B: VimBufferMut>(self, moment: Moment) -> Turn {
        let key = self.vim.pending_keys[0];
        let w = self.with_vim(
            Vim { pending_keys: self.vim.pending_keys.drop_first(), ..self.vim },
        );
        if key.kind == text_marker().kind {
            Turn::More(w.replay_text::<B>(), false)
        } else {
            w.turn_key::<B>(moment, key)
        }
    }

    /// One turn of the queue. Mappings are not looked up while an operator
    /// waits, nor in the expansion of a `noremap`.
    #[verifier::opaque]
    pub open spec fn turn<B: VimBufferMut>(self, class: ModeClass, moment: Moment) -> Turn {
        if self.vim.no_remap_left > 0 {
            self.with_vim(
                Vim { no_remap_left: (self.vim.no_remap_left - 1) as usize, ..self.vim },
            ).take_front::<B>(moment)
        } else if self.vim.op is Some {
            self.take_front::<B>(moment)
        } else {
            match looked_up(self.vim.keymaps.table(class), self.vim.pending_keys) {
                Lookup::Match(rhs) => self.expand_mapping(rhs),
                Lookup::Waiting => Turn::Stop(self),
                Lookup::Nothing => self.take_front::<B>(moment),
            }
        }
    }
}

/// An answer to the host.
pub open spec fn answer(declined: bool) -> KeyResult {
    if declined {
        KeyResult::Unknown
    } else {
        KeyResult::Consumed
    }
}

impl World {
    /// Too many turns: everything that waits is dropped.
    pub open spec fn overrun(self) -> World {
        self.with_vim(self.vim.without_queue().reset_pending().discard_record().end_replay())
    }

    /// The queue worked off, in at most `left` turns. `declined` says whether
    /// a key was declined so far.
    pub open spec fn drain<B: VimBufferMut>(
        self,
        class: ModeClass,
        left: int,
        declined: bool,
        moments: Seq<Moment>,
    ) -> (World, KeyResult)
        decreases left,
    {
        if self.vim.pending_keys.len() == 0 {
            (self.with_vim(self.vim.queue_done()), answer(declined))
        } else if left <= 0 {
            (self.overrun(), KeyResult::Consumed)
        } else {
            match self.turn::<B>(class, moments[0]) {
                Turn::More(w, unknown) => w.drain::<B>(
                    class,
                    left - 1,
                    declined || unknown,
                    moments.drop_first(),
                ),
                Turn::Leave(w, unknown) => (
                    w.with_vim(w.vim.queue_done()),
                    answer(declined || unknown),
                ),
                Turn::Stop(w) => (w, KeyResult::Consumed),
            }
        }
    }

    /// A key from the host: what becomes of the world, and whether the engine
    /// takes the key. `moments` is what the host shows and answers meanwhile.
    #[verifier::opaque]
    pub open spec fn handle_key<B: VimBufferMut>(
        self,
        key: Stroke,
        moments: Seq<Moment>,
    ) -> (World, KeyResult) {
        let key = normalized(key);
        if key.modifiers.platform {
            (self, KeyResult::Unknown)
        } else if self.vim.mode is CommandLine {
            (
                self.with_vim(self.vim.record(Step::Key(key))).cmdline_key::<B>(key),
                KeyResult::Consumed,
            )
        } else {
            self.with_vim(
                Vim { pending_keys: self.vim.pending_keys.push(key), ..self.vim },
            ).drain::<B>(class_of_mode(self.vim.mode), TURN_LIMIT as int, false, moments)
        }
    }
}

impl World {
    /// The moments are those of the turns in which the queue is worked off, one
    /// for each: what the host shows then. `hosts` is what the host has become
    /// at each of them, by what it was told since the one before; at first,
    /// since the engine's log was `since` and the host `host`.
    pub open spec fn sees<B: VimBufferMut, H: VimHost>(
        self,
        class: ModeClass,
        left: int,
        host: H,
        since: Calls,
        hosts: Seq<H>,
        moments: Seq<Moment>,
    ) -> bool
        decreases left,
    {
        if self.vim.pending_keys.len() == 0 || left <= 0 {
            moments.len() == 0 && hosts.len() == 0
        } else {
            &&& moments.len() > 0
            &&& hosts.len() == moments.len()
            &&& moments[0].env == env(hosts[0])
            &&& heard_since(hosts[0], self.vim.told, host, since)
            &&& match self.turn::<B>(class, moments[0]) {
                Turn::More(w, _) => w.sees::<B, H>(
                    class,
                    left - 1,
                    hosts[0],
                    self.vim.told,
                    hosts.drop_first(),
                    moments.drop_first(),
                ),
                _ => moments.len() == 1,
            }
        }
    }

    /// The moments are what `host` shows while it hands in a key: at the first
    /// what it shows now, and at each later one what it shows then.
    #[verifier::opaque]
    pub open spec fn shows<B: VimBufferMut, H: VimHost>(
        self,
        key: Stroke,
        host: H,
        moments: Seq<Moment>,
    ) -> bool {
        let key = normalized(key);
        &&& moments.len() > 0
        &&& moments[0].env == env(host)
        &&& if key.modifiers.platform || self.vim.mode is CommandLine {
            moments.len() == 1
        } else {
            exists|hosts: Seq<H>| #[trigger]
                self.with_vim(
                    Vim { pending_keys: self.vim.pending_keys.push(key), ..self.vim },
                ).sees::<B, H>(
                    class_of_mode(self.vim.mode),
                    TURN_LIMIT as int,
                    host,
                    self.vim.told,
                    hosts,
                    moments,
                )
        }
    }
}

/// There is a moment, and the host shows the same at each.
pub open spec fn all_alike(moments: Seq<Moment>, env: Env) -> bool {
    &&& moments.len() > 0
    &&& forall|i: int| 0 <= i < moments.len() ==> (#[trigger] moments[i]).env == env
}

/// The host shows the same, whatever it is told.
pub open spec fn steady<H: VimHost>() -> bool {
    forall|h: H, log: Calls, g: H, since: Calls| #[trigger]
        heard_since(h, log, g, since) ==> env(h) == env(g)
}

proof fn lemma_steady_turns<B: VimBufferMut, H: VimHost>(
    w: World,
    class: ModeClass,
    left: int,
    host: H,
    since: Calls,
    hosts: Seq<H>,
    moments: Seq<Moment>,
)
    requires
        steady::<H>(),
        w.sees::<B, H>(class, left, host, since, hosts, moments),
    ensures
        forall|i: int| 0 <= i < moments.len() ==> (#[trigger] moments[i]).env == env(host),
    decreases left,
{
    if w.vim.pending_keys.len() > 0 && left > 0 {
        match w.turn::<B>(class, moments[0]) {
            Turn::More(u, _) => {
                lemma_steady_turns::<B, H>(
                    u,
                    class,
                    left - 1,
                    hosts[0],
                    w.vim.told,
                    hosts.drop_first(),
                    moments.drop_first(),
                );
                assert forall|i: int| 0 <= i < moments.len() implies (#[trigger] moments[i]).env
                    == env(host) by {
                    if i > 0 {
                        assert(moments.drop_first()[i - 1] == moments[i]);
                    }
                }
            },
            _ => {},
        }
    }
}

/// At the first moment of a key the engine sees what the host shows then; and a
/// host that shows the same whatever it is told shows that at every moment.
pub proof fn what_is_shown_is_seen<B: VimBufferMut, H: VimHost>(
    w: World,
    key: Stroke,
    host: H,
    moments: Seq<Moment>,
)
    requires
        w.shows::<B, H>(key, host, moments),
    ensures
        moments.len() > 0,
        moments[0].env == env(host),
        steady::<H>() ==> all_alike(moments, env(host)),
{
    reveal(World::shows);
    let k = normalized(key);
    if steady::<H>() && !(k.modifiers.platform || w.vim.mode is CommandLine) {
        let q = w.with_vim(Vim { pending_keys: w.vim.pending_keys.push(k), ..w.vim });
        let class = class_of_mode(w.vim.mode);
        let hosts = choose|hosts: Seq<H>| #[trigger]
            q.sees::<B, H>(class, TURN_LIMIT as int, host, w.vim.told, hosts, moments);
        lemma_steady_turns::<B, H>(
            q,
            class,
            TURN_LIMIT as int,
            host,
            w.vim.told,
            hosts,
            moments,
        );
    }
}

/// There are as many hosts as moments.
proof fn lemma_sees_len<B: VimBufferMut, H: VimHost>(
    w: World,
    class: ModeClass,
    left: int,
    host: H,
    since: Calls,
    hosts: Seq<H>,
    moments: Seq<Moment>,
)
    ensures
        w.sees::<B, H>(class, left, host, since, hosts, moments) ==> hosts.len() == moments.len(),
{
}

/// A host that was told nothing shows what it showed.
proof fn lemma_env_kept<H: VimHost>(host: H, before: H, log: Calls)
    ensures
        heard_since(host, log, before, log) ==> env(host) == env(before),
{
    reveal(heard_since);
    assert(log.skip(log.len() as int) =~= Seq::empty());
}

/// Between two turns the host shows the same lines, and the clipboard holds the
/// same, unless it was told something in between that can change them.
pub proof fn what_is_shown_stays<H: VimHost>(host: H, log: Calls, before: H, since: Calls)
    requires
        heard_since(host, log, before, since),
    ensures
        since.len() <= log.len(),
        all_keep_seen(log.skip(since.len() as int)) ==> env(host).seen == env(before).seen,
        all_keep_clip(log.skip(since.len() as int)) ==> env(host).clip == env(before).clip,
{
    reveal(heard_since);
}

/// Host command chords always pass through, whatever the engine is doing;
/// only an escape is taken even then.
pub proof fn chords_pass_through<B: VimBufferMut>(w: World, key: Stroke, moments: Seq<Moment>)
    requires
        key.modifiers.platform,
        key.kind != Kind::Named("escape"@),
    ensures
        w.handle_key::<B>(key, moments) == (w, KeyResult::Unknown),
{
    reveal(World::handle_key);
}

/// The modifiers of an escape and the shift of a printable key make no
/// difference, and neither does the spelling of the space bar.
pub proof fn spelling_makes_no_difference<B: VimBufferMut>(
    w: World,
    key: Stroke,
    moments: Seq<Moment>,
)
    ensures
        w.handle_key::<B>(key, moments) == w.handle_key::<B>(normalized(key), moments),
        normalized(normalized(key)) == normalized(key),
{
    reveal(World::handle_key);
}

proof fn lemma_declined_key<B: VimBufferMut>(w: World, env: Env, c: char, replies: Seq<Reply>)
    requires
        w.vim.mode == Mode::Insert || w.vim.mode == Mode::Replace,
        !w.vim.insert_register_pending,
    ensures
        w.process_key::<B>(env, char_stroke(c), replies) == (
            w.with_vim(Vim { pending_unknown_char: Some(c), ..w.vim }),
            Outcome::Unknown,
        ),
{
    reveal(World::process_key);
    reveal(World::insert_key);
}

/// A queue of one character that insert mode declines.
proof fn lemma_declined_turn<B: VimBufferMut>(w: World, class: ModeClass, c: char, moment: Moment)
    requires
        w.vim.mode == Mode::Insert || w.vim.mode == Mode::Replace,
        w.vim.pending_keys == seq![char_stroke(c)],
        w.vim.op is None,
        !w.vim.insert_register_pending,
        looked_up(w.vim.keymaps.table(class), seq![char_stroke(c)]) is Nothing,
    ensures
        w.turn::<B>(class, moment) matches Turn::More(u, true) && {
            &&& u.doc == w.doc
            &&& u.vim.cursor == w.vim.cursor
            &&& u.vim.mode == w.vim.mode
            &&& u.vim.told == w.vim.told
            &&& u.vim.pending_unknown_char == Some(c)
            &&& u.vim.pending_keys.len() == 0
        },
{
    let key = char_stroke(c);
    let n = if w.vim.no_remap_left > 0 {
        w.with_vim(Vim { no_remap_left: (w.vim.no_remap_left - 1) as usize, ..w.vim })
    } else {
        w
    };
    assert(w.turn::<B>(class, moment) == n.take_front::<B>(moment)) by {
        reveal(World::turn);
    }
    let q = n.with_vim(Vim { pending_keys: n.vim.pending_keys.drop_first(), ..n.vim });
    assert(n.take_front::<B>(moment) == q.turn_key::<B>(moment, key)) by {
        reveal(World::take_front);
    }
    let r = q.with_vim(q.vim.record(Step::Key(key)));
    reveal(Vim::record);
    lemma_declined_key::<B>(r, moment.env, c, moment.replies);
    reveal(World::turn_key);
    reveal(Vim::settled);
    reveal(Vim::unrecord);
}

/// A character typed in insert mode is declined, so that the host's own text
/// input places it, unless a mapping begins with it: nothing but the note of
/// it changes.
pub proof fn typed_characters_are_declined<B: VimBufferMut>(w: World, c: char, moments: Seq<Moment>)
    requires
        w.vim.mode == Mode::Insert || w.vim.mode == Mode::Replace,
        w.vim.pending_keys.len() == 0,
        w.vim.op is None,
        !w.vim.insert_register_pending,
        looked_up(
            w.vim.keymaps.table(class_of_mode(w.vim.mode)),
            seq![char_stroke(c)],
        ) is Nothing,
    ensures
        w.handle_key::<B>(char_stroke(c), moments).1 == KeyResult::Unknown,
        w.handle_key::<B>(char_stroke(c), moments).0.doc == w.doc,
        w.handle_key::<B>(char_stroke(c), moments).0.vim.cursor == w.vim.cursor,
        w.handle_key::<B>(char_stroke(c), moments).0.vim.mode == w.vim.mode,
        w.handle_key::<B>(char_stroke(c), moments).0.vim.told == w.vim.told,
        w.handle_key::<B>(char_stroke(c), moments).0.vim.pending_unknown_char == Some(c),
{
    let key = char_stroke(c);
    let class = class_of_mode(w.vim.mode);
    let q = w.with_vim(Vim { pending_keys: w.vim.pending_keys.push(key), ..w.vim });
    assert(w.handle_key::<B>(key, moments) == q.drain::<B>(
        class,
        TURN_LIMIT as int,
        false,
        moments,
    )) by {
        reveal(World::handle_key);
    }
    assert(q.vim.pending_keys =~= seq![key]);
    lemma_declined_turn::<B>(q, class, c, moments[0]);
    let u = match q.turn::<B>(class, moments[0]) {
        Turn::More(u, _) => u,
        _ => q,
    };
    reveal_with_fuel(World::drain, 3);
    reveal(Vim::queue_done);
}

// ---- running the queue ----------------------------------------------------------------------------------------

impl VimState {
    fn set_queue(&mut self, keys: Vec<Key>)
        ensures
            final(self)@ == (Vim { pending_keys: strokes(keys@), ..old(self)@ }),
    {
        self.pending_keys = keys;
    }

    fn clear_queue(&mut self)
        ensures
            final(self)@ == old(self)@.without_queue(),
    {
        self.pending_keys = Vec::new();
        proof {
            assert(strokes(self.pending_keys@) =~= Seq::<Stroke>::empty());
        }
    }

    fn end_replay(&mut self)
        ensures
            final(self)@ == old(self)@.end_replay(),
    {
        self.replaying = false;
        self.replay_texts = Vec::new();
        proof {
            assert(texts_of(self.replay_texts@) =~= Seq::<Seq<char>>::empty());
        }
    }

    fn overrun<B: VimBufferMut, H: VimHost>(&mut self, ctx: &mut Ctx<B, H>)
        ensures
            *final(final(ctx).buf) == *final(old(ctx).buf),
            *final(final(ctx).host) == *final(old(ctx).host),
            hears(*final(ctx).host, final(self)@.told, *old(ctx).host, old(self)@.told),
            final(ctx).world(*final(self)) == old(ctx).world(*old(self)).overrun(),
    {
        self.clear_queue();
        self.reset_pending();
        self.discard_change_record();
        self.end_replay();
    }

    fn forget_recording(&mut self)
        ensures
            final(self)@ == (Vim {
                expanding_mapping: false,
                recording: Seq::empty(),
                recording_mutated: false,
                ..old(self)@
            }),
    {
        self.expanding_mapping = false;
        self.recording = Vec::new();
        self.recording_mutated = false;
        proof {
            assert(steps(self.recording@) =~= Seq::<Step>::empty());
        }
    }

    fn leave_maps(&mut self)
        ensures
            final(self)@ == (Vim { map_depth: 0, ..old(self)@ }),
    {
        self.map_depth = 0;
    }

    fn end_expansion(&mut self)
        ensures
            final(self)@ == (Vim { expanding_mapping: false, ..old(self)@ }),
    {
        self.expanding_mapping = false;
    }

    fn queue_done(&mut self)
        ensures
            final(self)@ == old(self)@.queue_done(),
            final(self)@.told == old(self)@.told,
    {
        proof {
            reveal(Vim::queue_done);
        }
        self.leave_maps();
        proof {
            assert(strokes(self.pending_keys@).len() == self.pending_keys.len());
        }
        if self.pending_keys.len() > 0 {
            return;
        }
        if self.replaying {
            self.end_replay();
            self.forget_recording();
        } else {
            self.end_expansion();
        }
    }

    fn begin_expansion(&mut self, keys: Vec<Key>, noremap: bool)
        ensures
            final(self)@ == old(self)@.expanded((Rhs { keys: strokes(keys@), noremap })),
    {
        proof {
            assert(strokes(keys@).len() == keys.len());
        }
        let left: usize = if noremap {
            keys.len()
        } else {
            self.no_remap_left
        };
        let depth: usize = if self.map_depth < usize::MAX {
            self.map_depth + 1
        } else {
            self.map_depth
        };
        self.no_remap_left = left;
        self.expanding_mapping = true;
        self.map_depth = depth;
        self.set_queue(keys);
    }

    /// Puts a mapping in place of the queue; true when it goes on.
    fn expand_mapping<B: VimBufferMut, H: VimHost>(
        &mut self,
        ctx: &mut Ctx<B, H>,
        keys: Vec<Key>,
        noremap: bool,
    ) -> (more: bool)
        ensures
            *final(final(ctx).buf) == *final(old(ctx).buf),
            *final(final(ctx).host) == *final(old(ctx).host),
            hears(*final(ctx).host, final(self)@.told, *old(ctx).host, old(self)@.told),
            old(ctx).world(*old(self)).expand_mapping((Rhs { keys: strokes(keys@), noremap }))
                == if more {
                Turn::More(final(ctx).world(*final(self)), false)
            } else {
                Turn::Stop(final(ctx).world(*final(self)))
            },
            more ==> final(ctx).env() == old(ctx).env(),
    {
        proof {
            reveal(World::expand_mapping);
        }
        self.begin_expansion(keys, noremap);
        if self.map_depth > MAP_LIMIT {
            self.clear_queue();
            self.reset_pending();
            self.bell(ctx);
            false
        } else {
            true
        }
    }

    fn take_replay_text(&mut self) -> (r: Option<String>)
        ensures
            match r {
                Some(text) => old(self)@.replay_texts.len() > 0 && text@
                    == old(self)@.replay_texts[0] && final(self)@ == (Vim {
                    replay_texts: old(self)@.replay_texts.drop_first(),
                    ..old(self)@
                }),
                None => old(self)@.replay_texts.len() == 0 && final(self)@ == old(self)@,
            },
    {
        if self.replay_texts.len() == 0 {
            return None;
        }
        let ghost before = self.replay_texts@;
        let text = self.replay_texts.remove(0);
        proof {
            assert(texts_of(before)[0] == before[0]@);
            assert(texts_of(self.replay_texts@) =~= texts_of(before).drop_first());
        }
        Some(text)
    }

    fn replay_text<B: VimBufferMut, H: VimHost>(&mut self, ctx: &mut Ctx<B, H>)
        ensures
            *final(final(ctx).buf) == *final(old(ctx).buf),
            *final(final(ctx).host) == *final(old(ctx).host),
            hears(*final(ctx).host, final(self)@.told, *old(ctx).host, old(self)@.told),
            final(ctx).world(*final(self)) == old(ctx).world(*old(self)).replay_text::<B>(),
    {
        proof {
            reveal(World::replay_text);
        }
        if let Some(text) = self.take_replay_text() {
            self.insert_text_at_cursor(ctx, text.as_str());
        }
    }

    /// Puts keys in front of the queue.
    fn feed(&mut self, keys: Vec<Key>)
        ensures
            final(self)@ == (Vim {
                pending_keys: strokes(keys@) + old(self)@.pending_keys,
                ..old(self)@
            }),
    {
        let mut all = keys;
        let ghost front = all@;
        let ghost rest = self.pending_keys@;
        all.append(&mut self.pending_keys);
        proof {
            assert(strokes(all@) =~= strokes(front) + strokes(rest));
        }
        self.pending_keys = all;
    }

    fn settle(&mut self, outcome: ProcessOutcome) -> (unknown: bool)
        ensures
            unknown == outcome@ is Unknown,
            final(self)@ == old(self)@.settled(outcome@),
            final(self)@.told == old(self)@.told,
    {
        proof {
            reveal(Vim::settled);
        }
        match outcome {
            ProcessOutcome::Consumed => false,
            ProcessOutcome::Unknown => {
                self.unrecord_key();
                true
            },
            ProcessOutcome::Feed(keys) => {
                self.feed(keys);
                false
            },
        }
    }
}

/// How a turn ended.
enum Ended {
    More(bool),
    Leave(bool),
    Stop,
}

impl Ended {
    spec fn turn(self, w: World) -> Turn {
        match self {
            Ended::More(unknown) => Turn::More(w, unknown),
            Ended::Leave(unknown) => Turn::Leave(w, unknown),
            Ended::Stop => Turn::Stop(w),
        }
    }
}

impl VimState {
    fn at_prompt(&self) -> (b: bool)
        ensures
            b == self@.at_prompt(),
    {
        let prompting = match self.mode {
            Mode::CommandLine { .. } => true,
            _ => false,
        };
        prompting && !self.replaying && !self.expanding_mapping
    }

    fn turn_key<B: VimBufferMut, H: VimHost>(&mut self, ctx: &mut Ctx<B, H>, key: &Key) -> (r: (
        Ended,
        Ghost<Seq<Reply>>,
    ))
        ensures
            *final(final(ctx).buf) == *final(old(ctx).buf),
            *final(final(ctx).host) == *final(old(ctx).host),
            hears(*final(ctx).host, final(self)@.told, *old(ctx).host, old(self)@.told),
            old(ctx).world(*old(self)).turn_key::<B>(
                (Moment { env: old(ctx).env(), replies: r.1@ }),
                key@,
            ) == r.0.turn(final(ctx).world(*final(self))),
    {
        proof {
            reveal(World::turn_key);
        }
        // record the key optimistically; keys the engine DECLINES are popped
        // again below — the text placement records the Text step instead,
        // exactly once. Otherwise every typed char would replay twice.
        self.record_key(key);
        let (outcome, replies) = self.process_key(ctx, key);
        let unknown = self.settle(outcome);
        // a mapping RHS that enters cmdline mode must keep processing its
        // queued keys (`:action Foo<CR>` as a mapping RHS)
        if self.at_prompt() {
            (Ended::Leave(unknown), replies)
        } else {
            (Ended::More(unknown), replies)
        }
    }

    fn pop_front(&mut self) -> (key: Key)
        requires
            old(self)@.pending_keys.len() > 0,
        ensures
            key@ == old(self)@.pending_keys[0],
            final(self)@ == (Vim {
                pending_keys: old(self)@.pending_keys.drop_first(),
                ..old(self)@
            }),
    {
        let ghost before = self.pending_keys@;
        proof {
            assert(strokes(before).len() == before.len());
        }
        let key = self.pending_keys.remove(0);
        proof {
            assert(strokes(before)[0] == before[0]@);
            assert(strokes(self.pending_keys@) =~= strokes(before).drop_first());
        }
        key
    }

    fn take_front<B: VimBufferMut, H: VimHost>(&mut self, ctx: &mut Ctx<B, H>) -> (r: (
        Ended,
        Ghost<Seq<Reply>>,
    ))
        requires
            old(self)@.pending_keys.len() > 0,
        ensures
            *final(final(ctx).buf) == *final(old(ctx).buf),
            *final(final(ctx).host) == *final(old(ctx).host),
            hears(*final(ctx).host, final(self)@.told, *old(ctx).host, old(self)@.told),
            old(ctx).world(*old(self)).take_front::<B>(
                (Moment { env: old(ctx).env(), replies: r.1@ }),
            ) == r.0.turn(final(ctx).world(*final(self))),
    {
        proof {
            reveal(World::take_front);
        }
        let key = self.pop_front();
        // replayed text is applied inline, not through the key pipeline
        if key.is_named("\u{0}dot-text") {
            self.replay_text(ctx);
            (Ended::More(false), Ghost(Seq::empty()))
        } else {
            self.turn_key(ctx, &key)
        }
    }

    fn use_up_noremap(&mut self)
        requires
            old(self)@.no_remap_left > 0,
        ensures
            final(self)@ == (Vim {
                no_remap_left: (old(self)@.no_remap_left - 1) as usize,
                ..old(self)@
            }),
    {
        self.no_remap_left = self.no_remap_left - 1;
    }

    fn turn<B: VimBufferMut, H: VimHost>(&mut self, ctx: &mut Ctx<B, H>, class: ModeClass) -> (r: (
        Ended,
        Ghost<Seq<Reply>>,
    ))
        requires
            old(self)@.pending_keys.len() > 0,
        ensures
            *final(final(ctx).buf) == *final(old(ctx).buf),
            *final(final(ctx).host) == *final(old(ctx).host),
            hears(*final(ctx).host, final(self)@.told, *old(ctx).host, old(self)@.told),
            old(ctx).world(*old(self)).turn::<B>(
                class,
                (Moment { env: old(ctx).env(), replies: r.1@ }),
            ) == r.0.turn(final(ctx).world(*final(self))),
    {
        proof {
            reveal(World::turn);
        }
        // user mappings (not while an operator is pending: vim uses :omap
        // there). Suppressed while a :noremap expansion is being consumed (no
        // recursive remap). Waiting keeps the key IN the queue: insert-mode
        // printables are declined by the pipeline and delivered by the host
        // later, so popping them here would lose them.
        if self.no_remap_left > 0 {
            self.use_up_noremap();
            return self.take_front(ctx);
        }
        if self.op.is_some() {
            return self.take_front(ctx);
        }
        match self.keymaps.look_up(class, self.pending_keys.as_slice()) {
            MappingMatch::Match { used, expansion, noremap } => {
                if self.expand_mapping(ctx, expansion, noremap) {
                    (Ended::More(false), Ghost(Seq::empty()))
                } else {
                    (Ended::Stop, Ghost(Seq::empty()))
                }
            },
            // a longer mapping may still follow: wait, key queued
            MappingMatch::Waiting => (Ended::Stop, Ghost(Seq::empty())),
            MappingMatch::Nothing => self.take_front(ctx),
        }
    }
}

impl VimState {
    fn enqueue(&mut self, key: Key)
        ensures
            final(self)@ == (Vim {
                pending_keys: old(self)@.pending_keys.push(key@),
                ..old(self)@
            }),
    {
        let ghost before = self.pending_keys@;
        self.pending_keys.push(key);
        proof {
            assert(strokes(self.pending_keys@) =~= strokes(before).push(key@));
        }
    }

    fn drain<B: VimBufferMut, H: VimHost>(&mut self, ctx: &mut Ctx<B, H>, class: ModeClass) -> (r: (
        KeyResult,
        Ghost<(Seq<Moment>, Seq<H>)>,
    ))
        ensures
            *final(final(ctx).buf) == *final(old(ctx).buf),
            *final(final(ctx).host) == *final(old(ctx).host),
            hears(*final(ctx).host, final(self)@.told, *old(ctx).host, old(self)@.told),
            (final(ctx).world(*final(self)), r.0) == old(ctx).world(*old(self)).drain::<B>(
                class,
                TURN_LIMIT as int,
                false,
                r.1@.0,
            ),
            old(ctx).world(*old(self)).sees::<B, H>(
                class,
                TURN_LIMIT as int,
                *old(ctx).host,
                old(self)@.told,
                r.1@.1,
                r.1@.0,
            ),
    {
        let ghost w = ctx.world(*self);
        let ghost host = *ctx.host;
        let ghost told = self@.told;
        let ghost mut seen = Seq::<Moment>::empty();
        let ghost mut hosts = Seq::<H>::empty();
        // the host at the last moment, and what it had been told by then
        let ghost mut last = *ctx.host;
        let ghost mut noted = self@.told;
        let mut left: usize = TURN_LIMIT;
        let mut declined = false;
        proof {
            lemma_heard_nothing(host, told);
            assert forall|rest: Seq<Moment>, more: Seq<H>|
                w.sees::<B, H>(
                    class,
                    TURN_LIMIT as int,
                    host,
                    told,
                    #[trigger] (hosts + more),
                    #[trigger] (seen + rest),
                ) == w.sees::<B, H>(class, left as int, last, noted, more, rest) by {
                assert(seen + rest =~= rest);
                assert(hosts + more =~= more);
            }
            assert forall|rest: Seq<Moment>|
                w.drain::<B>(class, TURN_LIMIT as int, false, #[trigger] (seen + rest)) == w.drain::<
                    B,
                >(class, left as int, declined, rest) by {
                assert(seen + rest =~= rest);
            }
        }
        while self.pending_keys.len() > 0
            invariant
                *final(ctx.buf) == *final(old(ctx).buf),
                *final(ctx.host) == *final(old(ctx).host),
                hears(*ctx.host, self@.told, *old(ctx).host, old(self)@.told),
                left <= TURN_LIMIT,
                w == old(ctx).world(*old(self)),
                host == *old(ctx).host,
                told == old(self)@.told,
                hosts.len() == seen.len(),
                heard_since(*ctx.host, self@.told, last, noted),
                forall|rest: Seq<Moment>, more: Seq<H>|
                    w.sees::<B, H>(
                        class,
                        TURN_LIMIT as int,
                        host,
                        told,
                        #[trigger] (hosts + more),
                        #[trigger] (seen + rest),
                    ) == ctx.world(*self).sees::<B, H>(class, left as int, last, noted, more, rest),
                forall|rest: Seq<Moment>|
                    w.drain::<B>(class, TURN_LIMIT as int, false, #[trigger] (seen + rest))
                        == ctx.world(*self).drain::<B>(class, left as int, declined, rest),
            decreases left,
        {
            let ghost before = ctx.world(*self);
            let ghost none = Seq::<Moment>::empty();
            let ghost nobody = Seq::<H>::empty();
            proof {
                assert(strokes(self.pending_keys@).len() == self.pending_keys.len());
                assert(seen + none =~= seen);
                assert(hosts + nobody =~= hosts);
            }
            if left == 0 {
                self.overrun(ctx);
                return (KeyResult::Consumed, Ghost((seen, hosts)));
            }
            let ghost now = ctx.env();
            let ghost here = *ctx.host;
            proof {
                lemma_heard_nothing(here, self@.told);
            }
            let (ended, Ghost(replies)) = self.turn(ctx, class);
            let ghost moment = Moment { env: now, replies };
            let ghost seen0 = seen;
            let ghost hosts0 = hosts;
            let ghost last0 = last;
            let ghost noted0 = noted;
            let ghost left0 = left as int;
            let ghost declined0 = declined;
            let ghost after = ctx.world(*self);
            proof {
                seen = seen.push(moment);
                hosts = hosts.push(here);
                last = here;
                noted = before.vim.told;
                assert forall|rest: Seq<Moment>, more: Seq<H>|
                    w.sees::<B, H>(
                        class,
                        TURN_LIMIT as int,
                        host,
                        told,
                        #[trigger] (hosts + more),
                        #[trigger] (seen + rest),
                    ) == (rest.len() == more.len() && match ended.turn(after) {
                        Turn::More(u, _) => u.sees::<B, H>(
                            class,
                            left0 - 1,
                            last,
                            noted,
                            more,
                            rest,
                        ),
                        _ => rest.len() == 0,
                    }) by {
                    let tail = seq![moment] + rest;
                    let they = seq![here] + more;
                    assert(seen + rest =~= seen0 + tail);
                    assert(hosts + more =~= hosts0 + they);
                    assert(tail[0] == moment && they[0] == here);
                    assert(tail.drop_first() =~= rest);
                    assert(they.drop_first() =~= more);
                    assert(before.sees::<B, H>(class, left0, last0, noted0, they, tail) == (
                    rest.len() == more.len() && match ended.turn(after) {
                        Turn::More(u, _) => u.sees::<B, H>(
                            class,
                            left0 - 1,
                            last,
                            noted,
                            more,
                            rest,
                        ),
                        _ => rest.len() == 0,
                    }));
                }
                assert(hosts + nobody =~= hosts);
                assert forall|rest: Seq<Moment>|
                    w.drain::<B>(class, TURN_LIMIT as int, false, #[trigger] (seen + rest))
                        == before.drain::<B>(
                        class,
                        left0,
                        declined0,
                        seq![moment] + rest,
                    ) by {
                    assert(seen + rest =~= seen0 + (seq![moment] + rest));
                }
                assert forall|rest: Seq<Moment>| #[trigger]
                    before.drain::<B>(class, left0, declined0, seq![moment] + rest)
                        == match ended.turn(after) {
                        Turn::More(u, unknown) => u.drain::<B>(
                            class,
                            left0 - 1,
                            declined0 || unknown,
                            rest,
                        ),
                        Turn::Leave(u, unknown) => (
                            u.with_vim(u.vim.queue_done()),
                            answer(declined0 || unknown),
                        ),
                        Turn::Stop(u) => (u, KeyResult::Consumed),
                    } by {
                    assert((seq![moment] + rest)[0] == moment);
                    assert((seq![moment] + rest).drop_first() =~= rest);
                }
                assert(seen + none =~= seen);
            }
            match ended {
                Ended::More(unknown) => {
                    left = left - 1;
                    declined = declined || unknown;
                    proof {
                        assert forall|rest: Seq<Moment>, more: Seq<H>|
                            w.sees::<B, H>(
                                class,
                                TURN_LIMIT as int,
                                host,
                                told,
                                #[trigger] (hosts + more),
                                #[trigger] (seen + rest),
                            ) == ctx.world(*self).sees::<B, H>(
                                class,
                                left as int,
                                last,
                                noted,
                                more,
                                rest,
                            ) by {
                            lemma_sees_len::<B, H>(
                                after,
                                class,
                                left as int,
                                last,
                                noted,
                                more,
                                rest,
                            );
                        }
                        assert forall|rest: Seq<Moment>|
                            w.drain::<B>(class, TURN_LIMIT as int, false, #[trigger] (seen + rest))
                                == ctx.world(*self).drain::<B>(
                                class,
                                left as int,
                                declined,
                                rest,
                            ) by {
                            assert(before.drain::<B>(
                                class,
                                left0,
                                declined0,
                                seq![moment] + rest,
                            ) == after.drain::<B>(class, left0 - 1, declined0 || unknown, rest));
                        }
                    }
                },
                Ended::Leave(unknown) => {
                    proof {
                        assert(w.drain::<B>(class, TURN_LIMIT as int, false, seen + none) == (
                            after.with_vim(after.vim.queue_done()),
                            answer(declined0 || unknown),
                        ));
                    }
                    self.queue_done();
                    return (
                        if declined || unknown {
                            KeyResult::Unknown
                        } else {
                            KeyResult::Consumed
                        },
                        Ghost((seen, hosts)),
                    );
                },
                Ended::Stop => {
                    proof {
                        assert(w.drain::<B>(class, TURN_LIMIT as int, false, seen + none) == (
                            after,
                            KeyResult::Consumed,
                        ));
                    }
                    return (KeyResult::Consumed, Ghost((seen, hosts)));
                },
            }
        }
        proof {
            assert(strokes(self.pending_keys@).len() == self.pending_keys.len());
            assert(seen + Seq::<Moment>::empty() =~= seen);
            assert(hosts + Seq::<H>::empty() =~= hosts);
        }
        self.queue_done();
        (
            if declined {
                KeyResult::Unknown
            } else {
                KeyResult::Consumed
            },
            Ghost((seen, hosts)),
        )
    }

    /// Feed one key. The host calls this for every key it intercepts.
    pub fn handle_key<B: VimBufferMut, H: VimHost>(&mut self, ctx: &mut Ctx<B, H>, key: Key) -> (r:
        KeyResult)
        ensures
            *final(final(ctx).buf) == *final(old(ctx).buf),
            *final(final(ctx).host) == *final(old(ctx).host),
            hears(*final(ctx).host, final(self)@.told, *old(ctx).host, old(self)@.told),
            key@.modifiers.platform && key@.kind != Kind::Named("escape"@) ==> *final(ctx).host
                == *old(ctx).host,
            exists|moments: Seq<Moment>|
                moments.len() > 0 && moments[0].env == old(ctx).env() && old(ctx).world(
                    *old(self),
                ).shows::<B, H>(key@, *old(ctx).host, moments) && (
                final(ctx).world(*final(self)),
                r,
            ) == #[trigger] old(ctx).world(*old(self)).handle_key::<B>(key@, moments),
    {
        proof {
            reveal(World::handle_key);
            reveal(World::shows);
        }
        let ghost host = *ctx.host;
        let ghost alone = seq![Moment { env: ctx.env(), replies: Seq::empty() }];
        let ghost typed = key@;
        let ghost w = ctx.world(*self);
        let key = normalize(key);
        // other host command chords (Cmd-…) always pass through
        if key.modifiers.platform {
            proof {
                assert(w.shows::<B, H>(typed, host, alone));
                assert((w, KeyResult::Unknown) == w.handle_key::<B>(typed, alone));
            }
            return KeyResult::Unknown;
        }
        let prompting = match self.mode {
            Mode::CommandLine { .. } => true,
            _ => false,
        };
        if prompting {
            // the pipeline loop never runs in cmdline mode — record here so
            // `.` can replay Ex commands typed into the prompt
            self.record_key(&key);
            let r = self.cmdline_key(ctx, &key);
            proof {
                assert(w.shows::<B, H>(typed, host, alone));
                assert((ctx.world(*self), r) == w.handle_key::<B>(typed, alone));
            }
            return r;
        }
        let class = mapping_class_for(self.mode);
        self.enqueue(key);
        let ghost q = ctx.world(*self);
        let (r, Ghost(met)) = self.drain(ctx, class);
        proof {
            let moments = met.0;
            assert(q.sees::<B, H>(class, TURN_LIMIT as int, host, w.vim.told, met.1, moments));
            lemma_env_kept(met.1[0], host, w.vim.told);
            assert(w.shows::<B, H>(typed, host, moments));
            assert((ctx.world(*self), r) == w.handle_key::<B>(typed, moments));
        }
        r
    }
}

} // verus!
