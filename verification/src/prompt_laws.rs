//! What the keys of the prompts do, and how commands are begun.
use crate::buffer::VimBufferMut;
use crate::cmdline::{prompt_stroke, Prompt};
use crate::doc::Doc;
use crate::host::{Env, HostCall};
use crate::key::{char_stroke, named_stroke, Stroke};
use crate::mode::{Mode, VisualKind};
use crate::motions::Motion;
use crate::normal::Reply;
use crate::ops::Operator;
use crate::pipeline::nav_motion;
use crate::search::match_from;
use crate::state::{Vim, World};
use vstd::prelude::*;

verus! {

// ---- typing ------------------------------------------------------------------------------

/// A prompt is open.
pub open spec fn prompted(w: World, prompt: char) -> bool {
    w.vim.mode == (Mode::CommandLine { prompt })
}

proof fn lemma_preview<B: VimBufferMut>(w: World, prompt: char)
    ensures
        w.preview::<B>(prompt).doc == w.doc,
        w.preview::<B>(prompt).vim.cmdline == w.vim.cmdline,
        w.preview::<B>(prompt).vim.mode == w.vim.mode,
        w.preview::<B>(prompt).vim.cursor == w.vim.cursor,
        w.preview::<B>(prompt).vim.search == w.vim.search,
{
    reveal(Vim::with_incsearch);
}

/// A character typed at a prompt goes behind what was typed before, and
/// Backspace takes the last one off; text, cursor and pattern stay.
pub proof fn a_prompt_takes_characters<B: VimBufferMut>(w: World, prompt: char, c: char)
    requires
        prompted(w, prompt),
        c != '\n',
        c != '\r',
        c != '\t',
        c != '\x7f',
    ensures
        ({
            let typed = w.vim.cmdline.buffer;
            let more = w.cmdline_key::<B>(char_stroke(c));
            let less = w.cmdline_key::<B>(named_stroke("backspace"@));
            &&& more.vim.cmdline.buffer == typed.push(c)
            &&& prompted(more, prompt)
            &&& more.doc == w.doc && more.vim.cursor == w.vim.cursor
            &&& typed.len() > 0 ==> less.vim.cmdline.buffer == typed.drop_last() && prompted(
                less,
                prompt,
            )
            &&& typed.len() == 0 && w.vim.cmdline_visual is None ==> less.vim.mode == Mode::Normal
            &&& less.doc == w.doc && less.vim.cursor == w.vim.cursor
        }),
{
    reveal(World::cmdline_key);
    reveal(World::prompt_char);
    reveal(World::prompt_back);
    reveal(World::cancel_cmdline);
    reveal_strlit("backspace");
    reveal_strlit("enter");
    reveal_strlit("escape");
    assert("backspace"@.len() == 9 && "enter"@.len() == 5 && "escape"@.len() == 6);
    assert(prompt_stroke(char_stroke(c)) == char_stroke(c));
    let u = w.with_vim(
        Vim {
            cmdline: Prompt {
                buffer: w.vim.cmdline.buffer.push(c),
                history_pos: None,
                ..w.vim.cmdline
            },
            ..w.vim
        },
    );
    lemma_preview::<B>(u, prompt);
    let b = w.with_vim(
        Vim {
            cmdline: Prompt { buffer: w.vim.cmdline.buffer.drop_last(), ..w.vim.cmdline },
            ..w.vim
        },
    );
    lemma_preview::<B>(b, prompt);
}

/// `<Esc>` leaves a prompt: text, cursor and pattern stay, nothing typed is left
/// and a selection that it was opened on is back.
pub proof fn escape_leaves_a_prompt<B: VimBufferMut>(w: World, prompt: char)
    requires
        prompted(w, prompt),
    ensures
        ({
            let after = w.cmdline_key::<B>(named_stroke("escape"@));
            &&& after.doc == w.doc
            &&& after.vim.cursor == w.vim.cursor
            &&& after.vim.search == w.vim.search
            &&& after.vim.cmdline.buffer.len() == 0
            &&& w.vim.cmdline_visual is None ==> after.vim.mode == Mode::Normal
            &&& w.vim.cmdline_visual matches Some((kind, anchor)) ==> after.vim.mode
                == (Mode::Visual { kind }) && after.vim.visual_anchor == Some(anchor)
        }),
{
    reveal(World::cmdline_key);
    reveal(World::cancel_cmdline);
    reveal_strlit("enter");
    reveal_strlit("escape");
    assert("enter"@.len() == 5 && "escape"@.len() == 6);
}

/// `<Enter>` at a search prompt looks for what was typed, forward from `/` and
/// back from `?`, goes to the nearest match in that direction and back to Normal
/// mode. The text stays.
pub proof fn enter_searches<B: VimBufferMut>(w: World, prompt: char)
    requires
        prompted(w, prompt),
        prompt == '/' || prompt == '?',
        w.vim.cmdline.buffer.len() > 0,
    ensures
        ({
            let pattern = w.vim.cmdline.buffer;
            let forward = prompt == '/';
            let matches = w.vim.matches_in::<B>(w.doc, pattern);
            let after = w.cmdline_key::<B>(named_stroke("enter"@));
            &&& after.doc == w.doc
            &&& after.vim.mode == Mode::Normal
            &&& after.vim.search.pattern == Some(pattern)
            &&& after.vim.search.forward == forward
            &&& matches.len() > 0 ==> after.cursor() == matches[match_from(
                matches,
                w.cursor(),
                forward,
                1,
            )].0
            &&& matches.len() == 0 ==> after.vim.cursor == w.vim.cursor
            &&& after.vim.cmdline.history.len() > 0 && after.vim.cmdline.history.last() == pattern
            &&& after.vim.cmdline.ex_history == w.vim.cmdline.ex_history
        }),
{
    let pattern = w.vim.cmdline.buffer;
    let forward = prompt == '/';
    lemma_enter::<B>(w, prompt);
    let a = w.with_vim(Vim { mode: Mode::Normal, ..w.vim });
    let b = a.with_vim(Vim { cmdline: a.vim.cmdline.remembering(prompt, pattern), ..a.vim });
    an_entry_is_remembered(a.vim.cmdline, prompt, pattern);
    lemma_pattern_set::<B>(b, pattern, forward);
    lemma_same_matches::<B>(b.vim, w.vim, w.doc, pattern);
    let c = b.with_vim(b.vim.with_pattern::<B>(b.doc, pattern, forward));
    lemma_same_matches::<B>(c.vim, w.vim, w.doc, pattern);
    lemma_to_match::<B>(c, pattern, forward);
}

proof fn lemma_enter<B: VimBufferMut>(w: World, prompt: char)
    requires
        prompted(w, prompt),
        prompt != ':',
        w.vim.cmdline.buffer.len() > 0,
    ensures
        ({
            let pattern = w.vim.cmdline.buffer;
            let a = w.with_vim(Vim { mode: Mode::Normal, ..w.vim });
            let b = a.with_vim(
                Vim { cmdline: a.vim.cmdline.remembering(prompt, pattern), ..a.vim },
            );
            w.cmdline_key::<B>(named_stroke("enter"@)) == b.with_vim(
                b.vim.with_pattern::<B>(b.doc, pattern, prompt == '/'),
            ).go_to_match::<B>(prompt == '/').say(HostCall::Changed)
        }),
{
    reveal(World::cmdline_key);
    reveal(World::execute_search);
}

proof fn lemma_same_matches<B: VimBufferMut>(a: Vim, b: Vim, d: Doc, pattern: Seq<char>)
    requires
        a.options == b.options,
    ensures
        a.matches_in::<B>(d, pattern) == b.matches_in::<B>(d, pattern),
{
    reveal(Vim::matches_in);
}

proof fn lemma_pattern_set<B: VimBufferMut>(w: World, pattern: Seq<char>, forward: bool)
    ensures
        ({
            let v = w.vim.with_pattern::<B>(w.doc, pattern, forward);
            &&& v.search.pattern == Some(pattern)
            &&& v.search.forward == forward
            &&& v.search.matches == w.vim.matches_in::<B>(w.doc, pattern)
            &&& v.search.generation == Some(v.edit_generation)
            &&& v.options == w.vim.options
            &&& v.cursor == w.vim.cursor
            &&& v.mode == w.vim.mode
            &&& v.cmdline == w.vim.cmdline
        }),
{
    reveal(Vim::with_pattern);
}

proof fn lemma_to_match<B: VimBufferMut>(w: World, pattern: Seq<char>, forward: bool)
    requires
        w.vim.search.pattern == Some(pattern),
        w.vim.search.matches == w.vim.matches_in::<B>(w.doc, pattern),
        w.vim.search.generation == Some(w.vim.edit_generation),
    ensures
        ({
            let m = w.vim.search.matches;
            let after = w.go_to_match::<B>(forward);
            &&& after.doc == w.doc
            &&& after.vim.mode == w.vim.mode
            &&& after.vim.cmdline == w.vim.cmdline
            &&& after.vim.search.pattern == Some(pattern)
            &&& after.vim.search.forward == w.vim.search.forward
            &&& m.len() > 0 ==> after.cursor() == m[match_from(m, w.cursor(), forward, 1)].0
            &&& m.len() == 0 ==> after.vim.cursor == w.vim.cursor
        }),
{
    reveal(World::go_to_match);
    reveal(Vim::with_fresh_matches);
    reveal(Vim::record_jump);
}

// ---- history -----------------------------------------------------------------------------

/// What is remembered is the newest entry of its prompt's history, which grows
/// unless that was it already; `:` has a history of its own, apart from that of
/// the searches.
pub proof fn an_entry_is_remembered(p: Prompt, prompt: char, text: Seq<char>)
    ensures
        ({
            let after = p.remembering(prompt, text);
            let (mine, other) = if prompt == ':' {
                (after.ex_history, after.history)
            } else {
                (after.history, after.ex_history)
            };
            let (was, stayed) = if prompt == ':' {
                (p.ex_history, p.history)
            } else {
                (p.history, p.ex_history)
            };
            &&& other == stayed
            &&& mine.len() > 0 && mine.last() == text
            &&& was.len() > 0 && was.last() == text ==> mine == was
            &&& was.len() == 0 || was.last() != text ==> mine == was.push(text)
            &&& after.buffer.len() == 0
        }),
{
    reveal(Prompt::remembering);
}

/// Up shows the newest entry first and then each one before it, and stays at the
/// oldest; Down shows the next one, and behind the newest what was being typed.
pub proof fn entries_are_browsed(p: Prompt, prompt: char)
    requires
        0 < p.past(prompt).len() <= usize::MAX,
        p.history_pos matches Some(pos) ==> pos < p.past(prompt).len() && p.stash is Some,
    ensures
        ({
            let past = p.past(prompt);
            let up = p.browsed(prompt, true);
            let down = p.browsed(prompt, false);
            &&& up is Some
            &&& p.history_pos is None ==> up->0.buffer == past.last() && up->0.stash == Some(
                p.buffer,
            ) && down is None
            &&& p.history_pos matches Some(pos) ==> {
                &&& pos > 0 ==> up->0.buffer == past[pos - 1] && up->0.history_pos == Some(
                    (pos - 1) as usize,
                )
                &&& pos == 0 ==> up->0.buffer == past[0]
                &&& down is Some
                &&& pos + 1 < past.len() ==> down->0.buffer == past[pos + 1]
                &&& pos + 1 == past.len() ==> Some(down->0.buffer) == p.stash
                    && down->0.history_pos is None
            }
        }),
{
    reveal(Prompt::browsed);
}

// ---- beginning commands ------------------------------------------------------------------

/// `/`, `?` and `:` open their prompts, and a quotation mark waits for the name
/// of a register; none of them changes the text or the cursor.
pub proof fn prompts_are_opened<B: VimBufferMut>(w: World, env: Env, replies: Seq<Reply>)
    requires
        w.vim.mode == Mode::Normal,
        w.vim.char_arg_cmd is None,
        !w.vim.register_pending,
        w.vim.op is None,
        w.vim.cmd_seq.len() == 0,
    ensures
        ({
            let key = |c: char| w.process_key::<B>(env, char_stroke(c), replies);
            &&& prompted(key('/').0, '/') && key('/').0.vim.cmdline.buffer.len() == 0
            &&& prompted(key('?').0, '?') && key('?').0.vim.cmdline.buffer.len() == 0
            &&& prompted(key(':').0, ':') && key(':').0.vim.cmdline.buffer.len() == 0
            &&& key('"').0.vim.register_pending && key('"').0.vim.mode == Mode::Normal
            &&& key('/').1 is Consumed && key('?').1 is Consumed && key(':').1 is Consumed
                && key('"').1 is Consumed
            &&& key('/').0.doc == w.doc && key('?').0.doc == w.doc && key(':').0.doc == w.doc
                && key('"').0.doc == w.doc
        }),
{
    reveal(World::process_key);
    reveal(World::normal_key);
    reveal(World::fresh_key);
}

/// The key behind a quotation mark names the register for the next command.
pub proof fn a_register_is_named<B: VimBufferMut>(
    w: World,
    env: Env,
    replies: Seq<Reply>,
    c: char,
)
    requires
        w.vim.mode == Mode::Normal,
        w.vim.char_arg_cmd is None,
        w.vim.register_pending,
    ensures
        ({
            let after = w.process_key::<B>(env, char_stroke(c), replies).0;
            &&& after.vim.register == Some(c)
            &&& !after.vim.register_pending
            &&& after.doc == w.doc
        }),
{
    reveal(World::process_key);
    reveal(World::normal_key);
    reveal(World::name_register);
}

/// A digit goes on with the count, but for a zero where there is none yet: that
/// is a motion.
pub proof fn digits_are_counts<B: VimBufferMut>(
    w: World,
    env: Env,
    replies: Seq<Reply>,
    c: char,
)
    requires
        w.vim.mode == Mode::Normal,
        w.vim.char_arg_cmd is None,
        !w.vim.register_pending,
        w.vim.op is None,
        w.vim.cmd_seq.len() == 0,
        '1' <= c <= '9' || (c == '0' && w.vim.count is Some),
    ensures
        ({
            let after = w.process_key::<B>(env, char_stroke(c), replies).0;
            &&& after.vim == w.vim.with_digit(c)
            &&& after.doc == w.doc
        }),
{
    reveal(World::process_key);
    reveal(World::normal_key);
    reveal(World::fresh_key);
}

/// The key that doubles an operator is the last one of its spelling: `dd`, `cc`,
/// `yy`, `>>`, `<<`, `guu`, `gUU` and `g~~` are for whole lines.
pub proof fn operators_are_doubled(v: Vim, c: char)
    requires
        v.cmd_seq.len() == 0,
    ensures
        v.op == Some(Operator::Delete) ==> v.doubles(char_stroke(c)) == (c == 'd'),
        v.op == Some(Operator::Change) ==> v.doubles(char_stroke(c)) == (c == 'c'),
        v.op == Some(Operator::Yank) ==> v.doubles(char_stroke(c)) == (c == 'y'),
        v.op == Some(Operator::IndentRight) ==> v.doubles(char_stroke(c)) == (c == '>'),
        v.op == Some(Operator::IndentLeft) ==> v.doubles(char_stroke(c)) == (c == '<'),
        v.op == Some(Operator::Lowercase) ==> v.doubles(char_stroke(c)) == (c == 'u'),
        v.op == Some(Operator::Uppercase) ==> v.doubles(char_stroke(c)) == (c == 'U'),
        v.op == Some(Operator::ToggleCase) ==> v.doubles(char_stroke(c)) == (c == '~'),
        v.op is None ==> !v.doubles(char_stroke(c)),
{
}

/// A doubled operator is applied to as many whole lines as the count says.
pub proof fn a_doubled_operator_takes_lines<B: VimBufferMut>(
    w: World,
    env: Env,
    replies: Seq<Reply>,
    key: Stroke,
)
    requires
        w.vim.mode == Mode::Normal,
        w.vim.char_arg_cmd is None,
        !w.vim.register_pending,
        w.vim.doubles(key),
    ensures
        w.process_key::<B>(env, key, replies).0 == w.without_count().complete_operator::<B>(
            w.counted_lines(w.vim.total_count()),
        ),
        w.process_key::<B>(env, key, replies).1 is Consumed,
{
    reveal(World::process_key);
    reveal(World::normal_key);
    reveal(World::double_operator);
}

/// `:` on a selection opens the prompt with the range of its lines, and keeps
/// the selection.
pub proof fn a_prompt_on_a_selection(v: Vim, kind: VisualKind, anchor: usize)
    requires
        v.mode == (Mode::Visual { kind }),
        v.visual_anchor == Some(anchor),
    ensures
        ({
            let after = v.prompt_on_selection();
            &&& after.mode == (Mode::CommandLine { prompt: ':' })
            &&& after.cmdline.buffer == seq!['\'', '<', ',', '\'', '>']
            &&& after.selection() == Some((anchor, v.cursor.offset, kind))
        }),
{
    reveal_strlit("'<,'>");
    assert(v.prompt_on_selection().cmdline.buffer =~= seq!['\'', '<', ',', '\'', '>']);
}

/// The arrow keys, Home, End and the page keys move as `h`, `l`, `k`, `j`, `0`,
/// `$`, `<C-b>` and `<C-f>` do.
pub proof fn arrows_are_motions()
    ensures
        nav_motion("left"@) == Some(Motion::Left),
        nav_motion("right"@) == Some(Motion::Right),
        nav_motion("up"@) == Some(Motion::Up),
        nav_motion("down"@) == Some(Motion::Down),
        nav_motion("home"@) == Some(Motion::LineStart),
        nav_motion("end"@) == Some(Motion::LineEnd),
        nav_motion("pageup"@) == Some(Motion::PageUp),
        nav_motion("pagedown"@) == Some(Motion::PageDown),
{
    reveal_strlit("left");
    reveal_strlit("right");
    reveal_strlit("up");
    reveal_strlit("down");
    reveal_strlit("home");
    reveal_strlit("end");
    reveal_strlit("pageup");
    reveal_strlit("pagedown");
    assert("left"@[0] == 'l' && "down"@[0] == 'd' && "home"@[0] == 'h');
    assert("right"@.len() == 5 && "up"@.len() == 2 && "end"@.len() == 3);
    assert("pageup"@.len() == 6 && "pagedown"@.len() == 8 && "left"@.len() == 4);
    assert("down"@.len() == 4 && "home"@.len() == 4);
}

} // verus!
