//! Engine state.
//!
//! [`VimState`] is the engine; its view [`Vim`] is what the contracts speak
//! of. A [`World`] is an engine together with the text it edits: every
//! operation of the engine is a function from one world to the next.
use crate::buffer::VimBufferMut;
use crate::charmap::CharMap;
use crate::cmdline::{Cmdline, Prompt};
use crate::doc::Doc;
use crate::host::{env, Env, HostCall, VimHost};
use crate::key::{strokes, Key, Stroke};
use crate::keymap::{Keymaps, Maps};
use crate::marks::{MarkSet, Marks};
use crate::mode::{Mode, VisualKind};
use crate::ops::Operator;
use crate::options::Options;
use crate::registers::{RegFile, Registers};
use crate::search::{Search, SearchState};
use crate::tables::CommandTables;
use vstd::prelude::*;

verus! {

/// Buffer + host pair threaded through all engine calls.
pub struct Ctx<'a, B: VimBufferMut, H: VimHost> {
    pub buf: &'a mut B,
    pub host: &'a mut H,
}

/// What happened to a key.
#[derive(Clone, Copy, Debug, PartialEq, Eq, Structural)]
pub enum KeyResult {
    /// The engine used (or deliberately swallowed) the key.
    Consumed,
    /// The engine does not handle this key: the host should process it.
    Unknown,
}

/// How an insert session was started (drives cursor placement + `Esc`).
#[derive(Clone, Copy, Debug, PartialEq, Eq, Structural)]
pub enum InsertKind {
    /// `i`
    Insert,
    /// `a`
    Append,
    /// `I`
    InsertFirstNonBlank,
    /// `A`
    AppendLineEnd,
    /// `o` / `O`
    OpenLine { below: bool },
    /// `gI`
    InsertAtColumnZero,
    /// `gi`: insert where the last insert session ended (`^` mark), or at the
    /// cursor when there is none.
    LastInsertExit,
    /// `c` / `s` / `S` / `C`
    Change,
    /// `R`: overwrite instead of insert
    Replace,
}

/// Pending multi-row insert of a visual-block `I`/`A`/`c`: on exit the
/// typed text is replicated onto every other row (single undo group).
pub struct BlockInsert {
    /// (adjusted offset, raw row start) for the non-cursor rows. Adjusted
    /// accounts for the block deletion; raw is the position in the original
    /// buffer, used to know which rows sit below the cursor's row.
    pub rows: Vec<(usize, usize)>,
    /// Raw start of the cursor's row: rows after it shift with the typed
    /// text.
    pub cursor_raw: usize,
    pub text: String,
}

/// What a [`BlockInsert`] holds.
pub struct BlockPlan {
    pub rows: Seq<(usize, usize)>,
    pub cursor_raw: usize,
    pub text: Seq<char>,
}

impl View for BlockInsert {
    type V = BlockPlan;

    open spec fn view(&self) -> BlockPlan {
        BlockPlan { rows: self.rows@, cursor_raw: self.cursor_raw, text: self.text@ }
    }
}

/// One recorded step of the last change, for `.` repeat. Typed text is
/// recorded as [`RecordedStep::Text`] (it never goes through the key
/// pipeline — on macOS it arrives via the IME — so replay must not feed it
/// back as keys either, or the host would insert it a second time).
pub enum RecordedStep {
    Key(Key),
    Text(String),
}

/// What a [`RecordedStep`] replays.
pub enum Step {
    Key(Stroke),
    Text(Seq<char>),
}

impl View for RecordedStep {
    type V = Step;

    open spec fn view(&self) -> Step {
        match self {
            RecordedStep::Key(k) => Step::Key(k@),
            RecordedStep::Text(t) => Step::Text(t@),
        }
    }
}

impl Clone for RecordedStep {
    fn clone(&self) -> (s: Self)
        ensures
            s@ == self@,
    {
        match self {
            RecordedStep::Key(k) => RecordedStep::Key(k.clone()),
            RecordedStep::Text(t) => RecordedStep::Text(t.clone()),
        }
    }
}

pub open spec fn steps(v: Seq<RecordedStep>) -> Seq<Step> {
    v.map_values(|s: RecordedStep| s@)
}

/// A copy of a recording.
pub(crate) fn copy_steps(v: &Vec<RecordedStep>) -> (r: Vec<RecordedStep>)
    ensures
        steps(r@) == steps(v@),
{
    let mut r: Vec<RecordedStep> = Vec::new();
    let mut i: usize = 0;
    while i < v.len()
        invariant
            i <= v.len(),
            steps(r@) == steps(v@).take(i as int),
        decreases v.len() - i,
    {
        let ghost before = steps(r@);
        let step = v[i].clone();
        let ghost seen = step@;
        r.push(step);
        proof {
            assert(steps(r@) =~= before.push(seen));
            assert(steps(v@).take(i + 1) =~= before.push(seen));
        }
        i = i + 1;
    }
    proof {
        assert(steps(v@).take(i as int) =~= steps(v@));
    }
    r
}

/// State collected while a char-argument command waits for its key.
#[derive(Clone, Copy, Debug, PartialEq, Eq, Structural)]
pub enum CharArgCmd {
    Find { forward: bool, till: bool },
    Replace,
    MarkSet,
    JumpMark { linewise: bool },
    /// `q{reg}` / the trailing `q` that stops recording.
    MacroRecord,
    /// `@{reg}` / `@@`.
    MacroPlay,
}

#[derive(Clone, Copy, Debug, PartialEq, Eq, Structural)]
pub struct Cursor {
    pub offset: usize,
    /// Display column kept across vertical moves, like vim's `wv_col`.
    /// `None` = derive from offset.
    pub desired_col: Option<usize>,
}

/// An in-progress insert session: one undo group + `'^` bookkeeping.
#[derive(Clone, Copy, Debug, PartialEq, Eq, Structural)]
pub struct InsertSession {
    pub kind: InsertKind,
    pub start_offset: usize,
    /// The undo group id (the host merges all session edits into one group).
    pub group_id: u64,
}

/// The vim engine. Hosts embed one per buffer/editor.
pub struct VimState {
    pub mode: Mode,
    pub cursor: Cursor,
    pub visual_anchor: Option<usize>,
    pub last_visual: Option<(usize, usize, VisualKind)>,
    // pending command assembly
    pub count: Option<usize>,
    pub register: Option<char>,
    pub register_pending: bool,
    pub op: Option<Operator>,
    pub op_count: Option<usize>,
    pub cmd_seq: Vec<Key>,
    pub char_arg_cmd: Option<CharArgCmd>,
    pub char_arg: Option<char>,
    pub last_find: Option<(char, bool, bool)>,
    pub pending_keys: Vec<Key>,
    pub map_depth: usize,
    /// `.` repeat: the last change as replayable steps, plus the in-progress
    /// recording. Text typed during an insert session is recorded as
    /// [`RecordedStep::Text`]. Visual-mode changes are not repeatable (v1).
    pub last_change: Vec<RecordedStep>,
    pub recording: Vec<RecordedStep>,
    pub recording_mutated: bool,
    pub recording_blocked: bool,
    /// Set while `.` replays: keys flow through the pipeline but recording
    /// and committing are suppressed so `last_change` stays put.
    pub replaying: bool,
    pub replay_texts: Vec<String>,
    /// Hosts suppress recording while IME composition previews mutate the
    /// buffer; only the committed text becomes part of a `.` repeat.
    pub recording_suppressed: bool,
    /// Macro registers (`q`/`@`). Stored as recorded steps (not register
    /// text): the notation round-trip through `Key::parse` is lossy for
    /// named keys, and typed text never flows through the key pipeline.
    pub macros: CharMap<Vec<RecordedStep>>,
    /// Active `q` recording: the register and the steps captured so far.
    pub macro_capture: Option<(char, Vec<RecordedStep>)>,
    /// Last register executed with `@` (for `@@`).
    pub last_macro_played: Option<char>,
    /// Remaining keys of a `:noremap` expansion: the mapping table is not
    /// consulted while these are consumed (no recursive remap).
    pub no_remap_left: usize,
    /// A user mapping just expanded: the queued expansion belongs to the
    /// mapping, so a cmdline entry inside it must not break the queue early.
    pub expanding_mapping: bool,
    /// Changelist (`g;`/`g,`): positions of recent changes, newest last;
    /// `change_pos` indexes the current entry.
    pub changes: Vec<usize>,
    pub change_pos: usize,
    /// For the `gq`/`gw` spellings of Operator::Format: the trigger letter
    /// (`q` or `w`) to match in the linewise doubling.
    pub format_trigger: Option<char>,
    /// Visual state to restore when the visual `:` prompt is cancelled:
    /// (kind, anchor). While the prompt is open the selection keeps its
    /// original shape for rendering.
    pub cmdline_visual: Option<(VisualKind, usize)>,
    /// `:action <unknown-id>` is silently ignored instead of reported.
    /// Hosts sharing one rc file across apps set this while applying the
    /// user layer (mappings aimed at other apps are expected to miss).
    pub lenient_actions: bool,
    /// Whether every edit re-runs the search highlight scan (default). Huge
    /// file hosts turn this off and refresh on their own schedule.
    pub hlsearch_live_update: bool,
    /// Visual-block `I`/`A`/`c`: the rows (insert offsets) that receive the
    /// typed text when the session exits, and the text typed on the cursor
    /// row so far.
    pub block_insert: Option<BlockInsert>,
    /// Jumplist (`C-o`/`C-i`): visited positions, `jump_pos` = index of the
    /// current entry. Jump motions and search execution append the origin
    /// and destination; forward entries are truncated on a new jump.
    pub jumps: Vec<usize>,
    pub jump_pos: usize,
    pub insert_session: Option<InsertSession>,
    pub insert_register_pending: bool,
    /// What each character typed in Replace mode has overwritten, if it has.
    pub overwritten: Vec<Option<char>>,
    pub options: Options,
    pub registers: Registers,
    pub marks: Marks,
    pub search: SearchState,
    pub cmdline: Cmdline,
    /// The last Ex command, for `@:`.
    pub last_ex: Option<String>,
    pub keymaps: Keymaps,
    pub tables: CommandTables,
    pub undo_seq: u64,
    pub open_undo: Option<u64>,
    /// Counts the edits; search matches are valid for one generation.
    pub edit_generation: u64,
    /// Platform plumbing (gpui-vim): the last printable char the key
    /// interceptor declined in insert mode. On Linux/Windows the platform
    /// delivers that same char again through the text-input path, where it
    /// must be placed without re-running the pipeline.
    pub pending_unknown_char: Option<char>,
    /// Everything that the host was told so far.
    pub told: Ghost<Seq<HostCall>>,
}

/// The state of the engine, as the contracts speak of it. The fields are
/// those of [`VimState`].
pub struct Vim {
    pub mode: Mode,
    pub cursor: Cursor,
    pub visual_anchor: Option<usize>,
    pub last_visual: Option<(usize, usize, VisualKind)>,
    pub count: Option<usize>,
    pub register: Option<char>,
    pub register_pending: bool,
    pub op: Option<Operator>,
    pub op_count: Option<usize>,
    pub cmd_seq: Seq<Stroke>,
    pub char_arg_cmd: Option<CharArgCmd>,
    pub char_arg: Option<char>,
    pub last_find: Option<(char, bool, bool)>,
    pub pending_keys: Seq<Stroke>,
    pub map_depth: usize,
    pub last_change: Seq<Step>,
    pub recording: Seq<Step>,
    pub recording_mutated: bool,
    pub recording_blocked: bool,
    pub replaying: bool,
    pub replay_texts: Seq<Seq<char>>,
    pub recording_suppressed: bool,
    pub macros: spec_fn(char) -> Option<Seq<Step>>,
    pub macro_capture: Option<(char, Seq<Step>)>,
    pub last_macro_played: Option<char>,
    pub no_remap_left: usize,
    pub expanding_mapping: bool,
    pub changes: Seq<usize>,
    pub change_pos: usize,
    pub format_trigger: Option<char>,
    pub cmdline_visual: Option<(VisualKind, usize)>,
    pub lenient_actions: bool,
    pub hlsearch_live_update: bool,
    pub block_insert: Option<BlockPlan>,
    pub jumps: Seq<usize>,
    pub jump_pos: usize,
    pub insert_session: Option<InsertSession>,
    pub insert_register_pending: bool,
    pub overwritten: Seq<Option<char>>,
    pub options: Options,
    pub registers: RegFile,
    pub marks: MarkSet,
    pub search: Search,
    pub cmdline: Prompt,
    pub last_ex: Option<Seq<char>>,
    pub keymaps: Maps,
    pub undo_seq: u64,
    pub open_undo: Option<u64>,
    pub edit_generation: u64,
    pub pending_unknown_char: Option<char>,
    pub told: Seq<HostCall>,
}

#[verifier::opaque]
pub open spec fn macros_of(m: CharMap<Vec<RecordedStep>>) -> spec_fn(char) -> Option<Seq<Step>> {
    |c: char|
        match m.at(c) {
            Some(v) => Some(steps(v@)),
            None => None,
        }
}

pub open spec fn capture_of(m: Option<(char, Vec<RecordedStep>)>) -> Option<(char, Seq<Step>)> {
    match m {
        Some((c, v)) => Some((c, steps(v@))),
        None => None,
    }
}

pub open spec fn block_of(b: Option<BlockInsert>) -> Option<BlockPlan> {
    match b {
        Some(b) => Some(b@),
        None => None,
    }
}

pub open spec fn text_of(s: Option<String>) -> Option<Seq<char>> {
    match s {
        Some(s) => Some(s@),
        None => None,
    }
}

pub open spec fn texts_of(v: Seq<String>) -> Seq<Seq<char>> {
    v.map_values(|s: String| s@)
}

impl View for VimState {
    type V = Vim;

    open spec fn view(&self) -> Vim {
        Vim {
            mode: self.mode,
            cursor: self.cursor,
            visual_anchor: self.visual_anchor,
            last_visual: self.last_visual,
            count: self.count,
            register: self.register,
            register_pending: self.register_pending,
            op: self.op,
            op_count: self.op_count,
            cmd_seq: strokes(self.cmd_seq@),
            char_arg_cmd: self.char_arg_cmd,
            char_arg: self.char_arg,
            last_find: self.last_find,
            pending_keys: strokes(self.pending_keys@),
            map_depth: self.map_depth,
            last_change: steps(self.last_change@),
            recording: steps(self.recording@),
            recording_mutated: self.recording_mutated,
            recording_blocked: self.recording_blocked,
            replaying: self.replaying,
            replay_texts: texts_of(self.replay_texts@),
            recording_suppressed: self.recording_suppressed,
            macros: macros_of(self.macros),
            macro_capture: capture_of(self.macro_capture),
            last_macro_played: self.last_macro_played,
            no_remap_left: self.no_remap_left,
            expanding_mapping: self.expanding_mapping,
            changes: self.changes@,
            change_pos: self.change_pos,
            format_trigger: self.format_trigger,
            cmdline_visual: self.cmdline_visual,
            lenient_actions: self.lenient_actions,
            hlsearch_live_update: self.hlsearch_live_update,
            block_insert: block_of(self.block_insert),
            jumps: self.jumps@,
            jump_pos: self.jump_pos,
            insert_session: self.insert_session,
            insert_register_pending: self.insert_register_pending,
            overwritten: self.overwritten@,
            options: self.options,
            registers: self.registers@,
            marks: self.marks@,
            search: self.search@,
            cmdline: self.cmdline@,
            last_ex: text_of(self.last_ex),
            keymaps: self.keymaps@,
            undo_seq: self.undo_seq,
            open_undo: self.open_undo,
            edit_generation: self.edit_generation,
            pending_unknown_char: self.pending_unknown_char,
            told: self.told@,
        }
    }
}

/// An engine and the text that it edits.
pub struct World {
    pub vim: Vim,
    pub doc: Doc,
    /// Edits take effect in the buffer.
    pub editable: bool,
    /// Which edition of its text the buffer holds.
    pub edition: u64,
}

impl<'a, B: VimBufferMut, H: VimHost> Ctx<'a, B, H> {
    /// The world of an engine in this context.
    pub open spec fn world(self, vim: VimState) -> World {
        World {
            vim: vim@,
            doc: self.buf.doc(),
            editable: self.buf.editable(),
            edition: self.buf.edition(),
        }
    }

    pub open spec fn env(self) -> Env {
        env(*self.host)
    }
}

impl Vim {
    /// One more call to the host.
    pub open spec fn say(self, call: HostCall) -> Vim {
        Vim { told: self.told.push(call), ..self }
    }

    pub open spec fn at(self, offset: int) -> Vim {
        Vim { cursor: Cursor { offset: offset as usize, ..self.cursor }, ..self }
    }

    /// The cursor at `offset`, no column remembered.
    pub open spec fn moved_to(self, offset: int) -> Vim {
        Vim { cursor: Cursor { offset: offset as usize, desired_col: None }, ..self }
    }
}

impl World {
    pub open spec fn say(self, call: HostCall) -> World {
        World { vim: self.vim.say(call), ..self }
    }

    /// The same text with another state of the engine.
    pub open spec fn with_vim(self, vim: Vim) -> World {
        World { vim, ..self }
    }

    /// Where the cursor is.
    pub open spec fn cursor(self) -> int {
        self.vim.cursor.offset as int
    }

    /// The line that the cursor is in.
    pub open spec fn line(self) -> int {
        self.doc.line_of(self.cursor())
    }

    pub open spec fn at(self, offset: int) -> World {
        World { vim: self.vim.at(offset), ..self }
    }

    pub open spec fn moved_to(self, offset: int) -> World {
        World { vim: self.vim.moved_to(offset), ..self }
    }
}

} // verus!
