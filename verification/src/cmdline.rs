//! Command-line mode: the `/` and `?` search prompts and the `:` prompt, with
//! history.
use crate::buffer::{VimBuffer, VimBufferMut};
use crate::doc::{max, min};
use crate::host::{hears, HostCall, VimHost};
use crate::key::{named_stroke, Key, KeyKind, Kind, Stroke};
use crate::mode::{Mode, VisualKind};
use crate::motions::{match_at, match_starting_at};
use crate::search::{jump_to_match, opt_pair, publish_incsearch, set_pattern};
use crate::state::{text_of, texts_of, Ctx, KeyResult, Vim, VimState, World};
use crate::strs::{chars_of, same_str, string_of};
use std::ops::Range;
use vstd::prelude::*;

verus! {

/// Command-line input buffer + history.
pub struct Cmdline {
    pub buffer: String,
    /// Searches, shared by `/` and `?`.
    pub history: Vec<String>,
    /// Ex commands.
    pub ex_history: Vec<String>,
    /// Position while browsing history with Up/Down; None = typing.
    pub history_pos: Option<usize>,
    /// In-progress input stashed while browsing history.
    pub stash: Option<String>,
}

/// What a [`Cmdline`] holds.
pub struct Prompt {
    pub buffer: Seq<char>,
    pub history: Seq<Seq<char>>,
    pub ex_history: Seq<Seq<char>>,
    pub history_pos: Option<usize>,
    pub stash: Option<Seq<char>>,
}

impl View for Cmdline {
    type V = Prompt;

    open spec fn view(&self) -> Prompt {
        Prompt {
            buffer: self.buffer@,
            history: texts_of(self.history@),
            ex_history: texts_of(self.ex_history@),
            history_pos: self.history_pos,
            stash: text_of(self.stash),
        }
    }
}

pub open spec fn no_prompt() -> Prompt {
    Prompt {
        buffer: Seq::empty(),
        history: Seq::empty(),
        ex_history: Seq::empty(),
        history_pos: None,
        stash: None,
    }
}

impl Default for Cmdline {
    fn default() -> (c: Self)
        ensures
            c@ == no_prompt(),
    {
        let c = Cmdline {
            buffer: String::new(),
            history: Vec::new(),
            ex_history: Vec::new(),
            history_pos: None,
            stash: None,
        };
        proof {
            assert(c@.buffer =~= Seq::<char>::empty());
            assert(c@.history =~= Seq::<Seq<char>>::empty());
            assert(c@.ex_history =~= Seq::<Seq<char>>::empty());
        }
        c
    }
}

// ---- the prompt ----------------------------------------------------------------------------------

impl Prompt {
    /// The history of a prompt: `:` has its own.
    pub open spec fn past(self, prompt: char) -> Seq<Seq<char>> {
        if prompt == ':' {
            self.ex_history
        } else {
            self.history
        }
    }

    /// An empty prompt.
    pub open spec fn opened(self) -> Prompt {
        Prompt { buffer: Seq::empty(), history_pos: None, ..self }
    }

    pub open spec fn with_past(self, prompt: char, past: Seq<Seq<char>>) -> Prompt {
        if prompt == ':' {
            Prompt { ex_history: past, ..self }
        } else {
            Prompt { history: past, ..self }
        }
    }

    /// An entry remembered, unless it is the last one again.
    #[verifier::opaque]
    pub open spec fn remembering(self, prompt: char, text: Seq<char>) -> Prompt {
        let past = self.past(prompt);
        let p = if past.len() > 0 && past.last() == text {
            self
        } else {
            self.with_past(prompt, past.push(text))
        };
        Prompt { buffer: Seq::empty(), history_pos: None, stash: None, ..p }
    }

    /// The entry that Up or Down goes to; its index, or the length of the
    /// history for what was being typed.
    pub open spec fn browse_to(self, prompt: char, up: bool) -> Option<int> {
        let n = self.past(prompt).len() as int;
        match self.history_pos {
            None => if up {
                Some(n - 1)
            } else {
                None
            },
            Some(pos) => if up {
                Some(
                    if pos == 0 {
                        0
                    } else {
                        max(min(pos as int, n - 1) - 1, 0)
                    },
                )
            } else {
                Some(min(pos + 1, n))
            },
        }
    }

    /// The prompt after Up or Down, if that has an effect.
    #[verifier::opaque]
    pub open spec fn browsed(self, prompt: char, up: bool) -> Option<Prompt> {
        let past = self.past(prompt);
        if past.len() == 0 {
            None
        } else {
            match self.browse_to(prompt, up) {
                None => None,
                Some(to) => {
                    let p = if self.history_pos is None {
                        Prompt { stash: Some(self.buffer), ..self }
                    } else {
                        self
                    };
                    if to >= past.len() {
                        Some(
                            Prompt {
                                buffer: match p.stash {
                                    Some(text) => text,
                                    None => Seq::empty(),
                                },
                                history_pos: None,
                                stash: None,
                                ..p
                            },
                        )
                    } else {
                        Some(
                            Prompt { buffer: past[to], history_pos: Some(to as usize), ..p },
                        )
                    }
                },
            }
        }
    }
}

impl Cmdline {
    fn clear(&mut self)
        ensures
            final(self)@ == (Prompt { buffer: Seq::empty(), ..old(self)@ }),
    {
        self.buffer = String::new();
        proof {
            assert(self.buffer@ =~= Seq::<char>::empty());
        }
    }

    fn open(&mut self)
        ensures
            final(self)@ == old(self)@.opened(),
    {
        self.clear();
        self.history_pos = None;
    }

    fn type_char(&mut self, c: char)
        ensures
            final(self)@ == (Prompt {
                buffer: old(self)@.buffer.push(c),
                history_pos: None,
                ..old(self)@
            }),
    {
        self.buffer.push(c);
        self.history_pos = None;
    }

    pub(crate) fn type_str(&mut self, text: &str)
        ensures
            final(self)@ == (Prompt { buffer: old(self)@.buffer + text@, ..old(self)@ }),
    {
        self.buffer.push_str(text);
    }

    /// Takes the last character away, if there is one.
    fn shorten(&mut self) -> (had: bool)
        ensures
            had == (old(self)@.buffer.len() > 0),
            final(self)@ == if had {
                Prompt { buffer: old(self)@.buffer.drop_last(), ..old(self)@ }
            } else {
                old(self)@
            },
    {
        let v = chars_of(self.buffer.as_str());
        if v.len() == 0 {
            return false;
        }
        self.buffer = string_of(&v, 0, v.len() - 1);
        proof {
            assert(self.buffer@ =~= old(self)@.buffer.drop_last());
        }
        true
    }

    fn reset(&mut self)
        ensures
            final(self)@ == (Prompt {
                buffer: Seq::empty(),
                history_pos: None,
                stash: None,
                ..old(self)@
            }),
    {
        self.clear();
        self.history_pos = None;
        self.stash = None;
    }

    fn push_past(&mut self, prompt: char, text: String)
        ensures
            final(self)@ == old(self)@.with_past(
                prompt,
                old(self)@.past(prompt).push(text@),
            ),
    {
        let ghost p = self@;
        if prompt == ':' {
            self.ex_history.push(text);
            proof {
                assert(texts_of(self.ex_history@) =~= p.ex_history.push(text@));
            }
        } else {
            self.history.push(text);
            proof {
                assert(texts_of(self.history@) =~= p.history.push(text@));
            }
        }
    }

    fn remember(&mut self, prompt: char, text: &str)
        ensures
            final(self)@ == old(self)@.remembering(prompt, text@),
    {
        proof {
            reveal(Prompt::remembering);
        }
        let again = {
            let past = if prompt == ':' {
                &self.ex_history
            } else {
                &self.history
            };
            proof {
                assert(texts_of(past@).len() == past.len());
                if past.len() > 0 {
                    assert(texts_of(past@).last() == past@[past.len() - 1]@);
                }
            }
            past.len() > 0 && same_str(past[past.len() - 1].as_str(), text)
        };
        if !again {
            self.push_past(prompt, crate::strs::copy_str(text));
        }
        self.reset();
    }

    fn entry(&self, prompt: char, i: usize) -> (s: String)
        requires
            i < self@.past(prompt).len(),
        ensures
            s@ == self@.past(prompt)[i as int],
    {
        if prompt == ':' {
            proof {
                assert(texts_of(self.ex_history@)[i as int] == self.ex_history@[i as int]@);
            }
            self.ex_history[i].clone()
        } else {
            proof {
                assert(texts_of(self.history@)[i as int] == self.history@[i as int]@);
            }
            self.history[i].clone()
        }
    }

    fn past_len(&self, prompt: char) -> (n: usize)
        ensures
            n == self@.past(prompt).len(),
    {
        if prompt == ':' {
            self.ex_history.len()
        } else {
            self.history.len()
        }
    }

    /// Where Up or Down goes to in a history that is not empty.
    fn find_entry(&self, prompt: char, up: bool) -> (r: Option<usize>)
        requires
            self@.past(prompt).len() > 0,
        ensures
            match r {
                Some(to) => self@.browse_to(prompt, up) == Some(to as int),
                None => self@.browse_to(prompt, up) is None,
            },
    {
        let n = self.past_len(prompt);
        match self.history_pos {
            None => if up {
                Some(n - 1)
            } else {
                None
            },
            Some(pos) => if up {
                Some(
                    if pos == 0 {
                        0
                    } else if pos < n {
                        pos - 1
                    } else if n >= 2 {
                        n - 2
                    } else {
                        0
                    },
                )
            } else {
                Some(
                    if pos < n {
                        pos + 1
                    } else {
                        n
                    },
                )
            },
        }
    }

    fn keep_typed(&mut self)
        ensures
            final(self)@ == if old(self)@.history_pos is None {
                Prompt { stash: Some(old(self)@.buffer), ..old(self)@ }
            } else {
                old(self)@
            },
    {
        if self.history_pos.is_none() {
            self.stash = Some(self.buffer.clone());
        }
    }

    fn back_to_typing(&mut self)
        ensures
            final(self)@ == (Prompt {
                buffer: match old(self)@.stash {
                    Some(text) => text,
                    None => Seq::empty(),
                },
                history_pos: None,
                stash: None,
                ..old(self)@
            }),
    {
        self.buffer = match self.stash.take() {
            Some(text) => text,
            None => {
                let empty = String::new();
                proof {
                    assert(empty@ =~= Seq::<char>::empty());
                }
                empty
            },
        };
        self.history_pos = None;
    }

    fn browse(&mut self, prompt: char, up: bool) -> (moved: bool)
        ensures
            match old(self)@.browsed(prompt, up) {
                Some(p) => moved && final(self)@ == p,
                None => !moved && final(self)@ == old(self)@,
            },
    {
        proof {
            reveal(Prompt::browsed);
        }
        let n = self.past_len(prompt);
        if n == 0 {
            return false;
        }
        match self.find_entry(prompt, up) {
            None => false,
            Some(to) => {
                self.keep_typed();
                if to >= n {
                    // past the newest entry: back to typing
                    self.back_to_typing();
                } else {
                    self.buffer = self.entry(prompt, to);
                    self.history_pos = Some(to);
                }
                true
            },
        }
    }
}

/// Going up in the history and down again gives back what was being typed.
pub proof fn history_there_and_back(p: Prompt, prompt: char)
    requires
        p.history_pos is None,
        0 < p.past(prompt).len() <= usize::MAX,
    ensures
        p.browsed(prompt, true) is Some,
        p.browsed(prompt, true)->0.browsed(prompt, false) == Some(Prompt { stash: None, ..p }),
{
    reveal(Prompt::browsed);
}

// ---- searching ---------------------------------------------------------------------------------------

impl Vim {
    /// The matches at hand published, as far as highlighting is on.
    pub open spec fn show_matches(self, current: Option<(usize, usize)>) -> Vim {
        self.say(
            if self.options.hlsearch {
                HostCall::Highlights(self.search.matches, current)
            } else {
                HostCall::Highlights(Seq::empty(), None)
            },
        )
    }
}

impl World {
    /// To the next match of the pattern: a jump, with the match marked.
    #[verifier::opaque]
    pub open spec fn go_to_match<B: VimBuffer>(self, forward: bool) -> World {
        let w = self.with_vim(self.vim.with_fresh_matches::<B>(self.doc));
        match w.vim.next_match(forward, 1) {
            Some(m) => {
                let at = w.moved_to(m.0 as int);
                let v = at.vim.record_jump(self.vim.cursor.offset, m.0);
                at.with_vim(
                    v.show_matches(match_at(v.search.matches, 0, m.0 as int)),
                ).say(HostCall::Scroll(at.line()))
            },
            None => w.say(HostCall::Bell),
        }
    }

    /// A search from the prompt. An empty pattern repeats the last search, in
    /// the direction of this prompt.
    #[verifier::opaque]
    pub open spec fn execute_search<B: VimBuffer>(self, prompt: char) -> World {
        let forward = prompt == '/';
        let pattern = self.vim.cmdline.buffer;
        let w = self.with_vim(Vim { mode: Mode::Normal, ..self.vim });
        if pattern.len() == 0 {
            match w.vim.search.pattern {
                Some(last) => w.with_vim(
                    w.vim.with_pattern::<B>(w.doc, last, forward),
                ).go_to_match::<B>(forward),
                None => w,
            }
        } else {
            let w = w.with_vim(
                Vim { cmdline: w.vim.cmdline.remembering(prompt, pattern), ..w.vim },
            );
            w.with_vim(w.vim.with_pattern::<B>(w.doc, pattern, forward)).go_to_match::<B>(
                forward,
            ).say(HostCall::Changed)
        }
    }

    /// An Ex command from the prompt. A selection that it was typed for is
    /// dropped first.
    #[verifier::opaque]
    pub open spec fn execute_ex<B: VimBufferMut>(self) -> World {
        let line = self.vim.cmdline.buffer;
        let w = if self.vim.cmdline_visual is Some {
            self.exit_visual()
        } else {
            self
        };
        w.with_vim(Vim { mode: Mode::Normal, cmdline_visual: None, ..w.vim }).run_line::<B>(
            line,
        ).end_command().say(HostCall::Changed)
    }

    /// A command line noted and run.
    #[verifier::opaque]
    pub open spec fn run_line<B: VimBufferMut>(self, line: Seq<char>) -> World {
        if line.len() == 0 {
            self
        } else {
            self.with_vim(
                Vim {
                    cmdline: self.vim.cmdline.remembering(':', line),
                    last_ex: Some(line),
                    ..self.vim
                },
            ).run_ex::<B>(line)
        }
    }

    /// The prompt left without doing anything: a selection that it was opened
    /// on is back, and so are the highlights.
    #[verifier::opaque]
    pub open spec fn cancel_cmdline(self) -> World {
        let v = match self.vim.cmdline_visual {
            Some((kind, anchor)) => Vim {
                mode: Mode::Visual { kind },
                visual_anchor: Some(anchor),
                cmdline_visual: None,
                ..self.vim
            },
            None => Vim { mode: Mode::Normal, ..self.vim },
        };
        self.with_vim(
            Vim { cmdline: Prompt { buffer: Seq::empty(), ..v.cmdline }, ..v }.show_matches(None),
        ).say(HostCall::Changed)
    }

    /// What is being typed shown as it is searched for.
    pub open spec fn preview<B: VimBuffer>(self, prompt: char) -> World {
        if prompt != ':' && self.vim.options.incsearch {
            self.with_vim(self.vim.with_incsearch::<B>(self.doc, self.vim.cmdline.buffer))
        } else {
            self
        }
    }
}

impl VimState {
    fn set_mode(&mut self, mode: Mode)
        ensures
            final(self)@ == (Vim { mode, ..old(self)@ }),
    {
        self.mode = mode;
    }

    fn show_matches<B: VimBufferMut, H: VimHost>(
        &mut self,
        ctx: &mut Ctx<B, H>,
        current: Option<Range<usize>>,
    )
        ensures
            *final(final(ctx).buf) == *final(old(ctx).buf),
            *final(final(ctx).host) == *final(old(ctx).host),
            hears(*final(ctx).host, final(self)@.told, *old(ctx).host, old(self)@.told),
            final(ctx).world(*final(self)) == ({
                let w = old(ctx).world(*old(self));
                w.with_vim(w.vim.show_matches(opt_pair(current)))
            }),
            final(ctx).env() == old(ctx).env(),
    {
        if self.options.hlsearch {
            let matches = crate::search::copy_ranges(&self.search.last_matches);
            self.publish(ctx.host, &matches, current);
        } else {
            self.clear_published(ctx.host);
        }
    }

    /// Move to the nearest match for the active pattern in `forward`.
    fn jump_to_current_match<B: VimBufferMut, H: VimHost>(
        &mut self,
        ctx: &mut Ctx<B, H>,
        forward: bool,
    )
        ensures
            *final(final(ctx).buf) == *final(old(ctx).buf),
            *final(final(ctx).host) == *final(old(ctx).host),
            hears(*final(ctx).host, final(self)@.told, *old(ctx).host, old(self)@.told),
            final(ctx).world(*final(self)) == old(ctx).world(*old(self)).go_to_match::<B>(forward),
    {
        proof {
            reveal(World::go_to_match);
        }
        let origin = self.cursor.offset;
        match jump_to_match(self, &*ctx.buf, forward, 1) {
            Some(offset) => {
                self.place(offset);
                self.record_jump(origin, offset);
                // publish with the current match marked
                let current = match_starting_at(&self.search.last_matches, offset);
                self.show_matches(ctx, current);
                let line = ctx.buf.offset_to_line(offset);
                self.scroll_to(ctx, line);
            },
            None => self.bell(ctx),
        }
    }

    fn search_for<B: VimBufferMut, H: VimHost>(
        &mut self,
        ctx: &mut Ctx<B, H>,
        pattern: String,
        forward: bool,
    )
        ensures
            *final(final(ctx).buf) == *final(old(ctx).buf),
            *final(final(ctx).host) == *final(old(ctx).host),
            hears(*final(ctx).host, final(self)@.told, *old(ctx).host, old(self)@.told),
            final(ctx).world(*final(self)) == ({
                let w = old(ctx).world(*old(self));
                w.with_vim(w.vim.with_pattern::<B>(w.doc, pattern@, forward)).go_to_match::<B>(
                    forward,
                )
            }),
    {
        set_pattern(self, ctx, pattern, forward);
        self.jump_to_current_match(ctx, forward);
    }

    fn remember(&mut self, prompt: char, text: &str)
        ensures
            final(self)@ == (Vim {
                cmdline: old(self)@.cmdline.remembering(prompt, text@),
                ..old(self)@
            }),
    {
        self.cmdline.remember(prompt, text);
    }

    /// Execute the current pattern and jump to the first match.
    fn execute_search<B: VimBufferMut, H: VimHost>(&mut self, ctx: &mut Ctx<B, H>, prompt: char)
        ensures
            *final(final(ctx).buf) == *final(old(ctx).buf),
            *final(final(ctx).host) == *final(old(ctx).host),
            hears(*final(ctx).host, final(self)@.told, *old(ctx).host, old(self)@.told),
            final(ctx).world(*final(self)) == old(ctx).world(*old(self)).execute_search::<B>(
                prompt,
            ),
    {
        proof {
            reveal(World::execute_search);
        }
        let forward = prompt == '/';
        let pattern = self.cmdline.buffer.clone();
        self.set_mode(Mode::Normal);
        if pattern.as_str().is_empty() {
            // empty pattern: re-use the last one, like vim
            let last = match &self.search.pattern {
                Some(last) => Some(last.clone()),
                None => None,
            };
            if let Some(last) = last {
                self.search_for(ctx, last, forward);
            }
            return;
        }
        self.remember(prompt, pattern.as_str());
        self.search_for(ctx, pattern, forward);
        self.notify_changed(ctx);
    }

    fn close_prompt(&mut self)
        ensures
            final(self)@ == (Vim { mode: Mode::Normal, cmdline_visual: None, ..old(self)@ }),
    {
        self.mode = Mode::Normal;
        self.cmdline_visual = None;
    }

    fn note_line(&mut self, line: &str)
        ensures
            final(self)@ == (Vim {
                cmdline: old(self)@.cmdline.remembering(':', line@),
                last_ex: Some(line@),
                ..old(self)@
            }),
    {
        self.remember(':', line);
        self.last_ex = Some(crate::strs::copy_str(line));
    }

    fn run_line<B: VimBufferMut, H: VimHost>(&mut self, ctx: &mut Ctx<B, H>, line: &str)
        ensures
            *final(final(ctx).buf) == *final(old(ctx).buf),
            *final(final(ctx).host) == *final(old(ctx).host),
            hears(*final(ctx).host, final(self)@.told, *old(ctx).host, old(self)@.told),
            final(ctx).world(*final(self)) == old(ctx).world(*old(self)).run_line::<B>(line@),
    {
        proof {
            reveal(World::run_line);
        }
        if !line.is_empty() {
            self.note_line(line);
            self.run_ex(ctx, line);
        }
    }

    fn run_prompt<B: VimBufferMut, H: VimHost>(&mut self, ctx: &mut Ctx<B, H>, line: &str)
        ensures
            *final(final(ctx).buf) == *final(old(ctx).buf),
            *final(final(ctx).host) == *final(old(ctx).host),
            hears(*final(ctx).host, final(self)@.told, *old(ctx).host, old(self)@.told),
            final(ctx).world(*final(self)) == ({
                let w = old(ctx).world(*old(self));
                w.with_vim(Vim { mode: Mode::Normal, cmdline_visual: None, ..w.vim }).run_line::<
                    B,
                >(line@).end_command().say(HostCall::Changed)
            }),
    {
        self.close_prompt();
        self.run_line(ctx, line);
        self.end_command();
        self.notify_changed(ctx);
    }

    fn execute_ex<B: VimBufferMut, H: VimHost>(&mut self, ctx: &mut Ctx<B, H>)
        ensures
            *final(final(ctx).buf) == *final(old(ctx).buf),
            *final(final(ctx).host) == *final(old(ctx).host),
            hears(*final(ctx).host, final(self)@.told, *old(ctx).host, old(self)@.told),
            final(ctx).world(*final(self)) == old(ctx).world(*old(self)).execute_ex::<B>(),
    {
        proof {
            reveal(World::execute_ex);
        }
        let line = self.cmdline.buffer.clone();
        if self.cmdline_visual.is_some() {
            self.exit_visual(ctx);
            self.run_prompt(ctx, line.as_str());
        } else {
            self.run_prompt(ctx, line.as_str());
        }
    }

    fn restore_selection(&mut self, kind: VisualKind, anchor: usize)
        ensures
            final(self)@ == (Vim {
                mode: Mode::Visual { kind },
                visual_anchor: Some(anchor),
                cmdline_visual: None,
                ..old(self)@
            }),
    {
        self.mode = Mode::Visual { kind };
        self.visual_anchor = Some(anchor);
        self.cmdline_visual = None;
    }

    fn clear_prompt(&mut self)
        ensures
            final(self)@ == (Vim {
                cmdline: Prompt { buffer: Seq::empty(), ..old(self)@.cmdline },
                ..old(self)@
            }),
    {
        self.cmdline.clear();
    }

    fn cancel_cmdline<B: VimBufferMut, H: VimHost>(&mut self, ctx: &mut Ctx<B, H>)
        ensures
            *final(final(ctx).buf) == *final(old(ctx).buf),
            *final(final(ctx).host) == *final(old(ctx).host),
            hears(*final(ctx).host, final(self)@.told, *old(ctx).host, old(self)@.told),
            final(ctx).world(*final(self)) == old(ctx).world(*old(self)).cancel_cmdline(),
            final(ctx).env() == old(ctx).env(),
    {
        proof {
            reveal(World::cancel_cmdline);
        }
        match self.cmdline_visual {
            Some((kind, anchor)) => {
                self.restore_selection(kind, anchor);
                self.clear_prompt();
                self.show_matches(ctx, None);
                self.notify_changed(ctx);
            },
            None => {
                self.set_mode(Mode::Normal);
                self.clear_prompt();
                // restore the previous highlight set
                self.show_matches(ctx, None);
                self.notify_changed(ctx);
            },
        }
    }

    fn preview<B: VimBufferMut, H: VimHost>(&mut self, ctx: &mut Ctx<B, H>, prompt: char)
        ensures
            *final(final(ctx).buf) == *final(old(ctx).buf),
            *final(final(ctx).host) == *final(old(ctx).host),
            hears(*final(ctx).host, final(self)@.told, *old(ctx).host, old(self)@.told),
            final(ctx).world(*final(self)) == old(ctx).world(*old(self)).preview::<B>(prompt),
            final(ctx).env() == old(ctx).env(),
    {
        if prompt != ':' && self.options.incsearch {
            let pattern = self.cmdline.buffer.clone();
            publish_incsearch(self, ctx, pattern.as_str());
        }
    }
}

// ---- keys ------------------------------------------------------------------------------------------------

/// Platforms may deliver Enter, Backspace and Tab as bare control characters
/// through the text-input path (`"\n"`, `"\x7f"`, `"\t"`). The prompt takes
/// them as their named keys instead of pattern text.
pub open spec fn prompt_stroke(key: Stroke) -> Stroke {
    if !key.modifiers.plain() {
        key
    } else {
        match key.kind {
            Kind::Char(c) => if c == '\n' || c == '\r' {
                named_stroke("enter"@)
            } else if c == '\x7f' {
                named_stroke("backspace"@)
            } else if c == '\t' {
                named_stroke("tab"@)
            } else {
                key
            },
            Kind::Named(_) => key,
        }
    }
}

fn normalize_control_char(key: &Key) -> (k: Key)
    ensures
        k@ == prompt_stroke(key@),
{
    if !key.modifiers.is_plain() {
        return key.clone();
    }
    match &key.kind {
        KeyKind::Char(c) => if *c == '\n' || *c == '\r' {
            Key::enter()
        } else if *c == '\x7f' {
            Key::backspace()
        } else if *c == '\t' {
            Key::tab()
        } else {
            key.clone()
        },
        KeyKind::Named(_) => key.clone(),
    }
}

impl World {
    /// A character typed at the prompt.
    #[verifier::opaque]
    pub open spec fn prompt_char<B: VimBuffer>(self, prompt: char, c: char) -> World {
        self.with_vim(
            Vim {
                cmdline: Prompt {
                    buffer: self.vim.cmdline.buffer.push(c),
                    history_pos: None,
                    ..self.vim.cmdline
                },
                ..self.vim
            },
        ).preview::<B>(prompt).say(HostCall::Changed)
    }

    /// Backspace at the prompt; on an empty one it leaves.
    #[verifier::opaque]
    pub open spec fn prompt_back<B: VimBuffer>(self, prompt: char) -> World {
        let typed = self.vim.cmdline.buffer;
        if typed.len() == 0 {
            self.cancel_cmdline().say(HostCall::Changed)
        } else {
            self.with_vim(
                Vim {
                    cmdline: Prompt { buffer: typed.drop_last(), ..self.vim.cmdline },
                    ..self.vim
                },
            ).preview::<B>(prompt).say(HostCall::Changed)
        }
    }

    /// Up and Down at the prompt.
    #[verifier::opaque]
    pub open spec fn prompt_browse(self, prompt: char, up: bool) -> World {
        match self.vim.cmdline.browsed(prompt, up) {
            Some(cmdline) => self.with_vim(Vim { cmdline, ..self.vim }).say(HostCall::Changed),
            None => self,
        }
    }

    /// A key at the prompt.
    #[verifier::opaque]
    pub open spec fn cmdline_key<B: VimBufferMut>(self, key: Stroke) -> World {
        let key = prompt_stroke(key);
        match self.vim.mode {
            Mode::CommandLine { prompt } => if !key.modifiers.plain() {
                self
            } else {
                match key.kind {
                    Kind::Char(c) => self.prompt_char::<B>(prompt, c),
                    Kind::Named(name) => if name == "enter"@ {
                        if prompt == ':' {
                            self.execute_ex::<B>()
                        } else {
                            self.execute_search::<B>(prompt)
                        }
                    } else if name == "escape"@ {
                        self.cancel_cmdline()
                    } else if name == "backspace"@ {
                        self.prompt_back::<B>(prompt)
                    } else if name == "up"@ {
                        self.prompt_browse(prompt, true)
                    } else if name == "down"@ {
                        self.prompt_browse(prompt, false)
                    } else {
                        self
                    },
                }
            },
            _ => self,
        }
    }
}

impl Vim {
    /// A prompt opened.
    pub open spec fn begin_cmdline(self, prompt: char) -> Vim {
        Vim { cmdline: self.cmdline.opened(), mode: Mode::CommandLine { prompt }, ..self }
    }
}

impl VimState {
    pub(crate) fn begin_cmdline(&mut self, prompt: char)
        ensures
            final(self)@ == old(self)@.begin_cmdline(prompt),
    {
        self.cmdline.open();
        self.mode = Mode::CommandLine { prompt };
    }

    fn prompt_char<B: VimBufferMut, H: VimHost>(
        &mut self,
        ctx: &mut Ctx<B, H>,
        prompt: char,
        c: char,
    )
        ensures
            *final(final(ctx).buf) == *final(old(ctx).buf),
            *final(final(ctx).host) == *final(old(ctx).host),
            hears(*final(ctx).host, final(self)@.told, *old(ctx).host, old(self)@.told),
            final(ctx).world(*final(self)) == old(ctx).world(*old(self)).prompt_char::<B>(
                prompt,
                c,
            ),
    {
        proof {
            reveal(World::prompt_char);
        }
        self.cmdline.type_char(c);
        self.preview(ctx, prompt);
        self.notify_changed(ctx);
    }

    fn shorten_prompt(&mut self) -> (had: bool)
        ensures
            had == (old(self)@.cmdline.buffer.len() > 0),
            final(self)@ == if had {
                Vim {
                    cmdline: Prompt {
                        buffer: old(self)@.cmdline.buffer.drop_last(),
                        ..old(self)@.cmdline
                    },
                    ..old(self)@
                }
            } else {
                old(self)@
            },
    {
        self.cmdline.shorten()
    }

    fn browse_prompt(&mut self, prompt: char, up: bool) -> (moved: bool)
        ensures
            match old(self)@.cmdline.browsed(prompt, up) {
                Some(cmdline) => moved && final(self)@ == (Vim { cmdline, ..old(self)@ }),
                None => !moved && final(self)@ == old(self)@,
            },
    {
        self.cmdline.browse(prompt, up)
    }

    fn prompt_back<B: VimBufferMut, H: VimHost>(&mut self, ctx: &mut Ctx<B, H>, prompt: char)
        ensures
            *final(final(ctx).buf) == *final(old(ctx).buf),
            *final(final(ctx).host) == *final(old(ctx).host),
            hears(*final(ctx).host, final(self)@.told, *old(ctx).host, old(self)@.told),
            final(ctx).world(*final(self)) == old(ctx).world(*old(self)).prompt_back::<B>(prompt),
    {
        proof {
            reveal(World::prompt_back);
        }
        if self.shorten_prompt() {
            self.preview(ctx, prompt);
            self.notify_changed(ctx);
        } else {
            self.cancel_cmdline(ctx);
            self.notify_changed(ctx);
        }
    }

    fn prompt_browse<B: VimBufferMut, H: VimHost>(
        &mut self,
        ctx: &mut Ctx<B, H>,
        prompt: char,
        up: bool,
    )
        ensures
            *final(final(ctx).buf) == *final(old(ctx).buf),
            *final(final(ctx).host) == *final(old(ctx).host),
            hears(*final(ctx).host, final(self)@.told, *old(ctx).host, old(self)@.told),
            final(ctx).world(*final(self)) == old(ctx).world(*old(self)).prompt_browse(prompt, up),
    {
        proof {
            reveal(World::prompt_browse);
        }
        if self.browse_prompt(prompt, up) {
            self.notify_changed(ctx);
        }
    }

    pub(crate) fn cmdline_key<B: VimBufferMut, H: VimHost>(
        &mut self,
        ctx: &mut Ctx<B, H>,
        key: &Key,
    ) -> (r: KeyResult)
        ensures
            *final(final(ctx).buf) == *final(old(ctx).buf),
            *final(final(ctx).host) == *final(old(ctx).host),
            hears(*final(ctx).host, final(self)@.told, *old(ctx).host, old(self)@.told),
            final(ctx).world(*final(self)) == old(ctx).world(*old(self)).cmdline_key::<B>(key@),
            r == KeyResult::Consumed,
    {
        proof {
            reveal(World::cmdline_key);
        }
        let prompt = match self.mode {
            Mode::CommandLine { prompt } => prompt,
            _ => {
                return KeyResult::Consumed;
            },
        };
        let key = normalize_control_char(key);
        if !key.modifiers.is_plain() {
            return KeyResult::Consumed;
        }
        match &key.kind {
            KeyKind::Char(c) => self.prompt_char(ctx, prompt, *c),
            KeyKind::Named(name) => {
                let name = name.as_str();
                if same_str(name, "enter") {
                    if prompt == ':' {
                        self.execute_ex(ctx);
                    } else {
                        self.execute_search(ctx, prompt);
                    }
                } else if same_str(name, "escape") {
                    self.cancel_cmdline(ctx);
                } else if same_str(name, "backspace") {
                    self.prompt_back(ctx, prompt);
                } else if same_str(name, "up") {
                    self.prompt_browse(ctx, prompt, true);
                } else if same_str(name, "down") {
                    self.prompt_browse(ctx, prompt, false);
                }
            },
        }
        KeyResult::Consumed
    }
}

} // verus!
