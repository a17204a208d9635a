//! Pending command input, and the recording that `.` and `@` replay.
use crate::key::{strokes, Key, Stroke};
use crate::state::{steps, BlockPlan, RecordedStep, Step, Vim, VimState};
use crate::strs::copy_str;
use vstd::prelude::*;

verus! {

proof fn lemma_empty()
    ensures
        strokes(Seq::<Key>::empty()) == Seq::<Stroke>::empty(),
        steps(Seq::<RecordedStep>::empty()) == Seq::<Step>::empty(),
{
    assert(strokes(Seq::<Key>::empty()) =~= Seq::<Stroke>::empty());
    assert(steps(Seq::<RecordedStep>::empty()) =~= Seq::<Step>::empty());
}

proof fn lemma_push_step(v: Seq<RecordedStep>, s: RecordedStep)
    ensures
        steps(v.push(s)) == steps(v).push(s@),
{
    assert(steps(v.push(s)) =~= steps(v).push(s@));
}

proof fn lemma_pop_step(v: Seq<RecordedStep>)
    requires
        v.len() > 0,
    ensures
        steps(v.drop_last()) == steps(v).drop_last(),
{
    assert(steps(v.drop_last()) =~= steps(v).drop_last());
}

// ---- pending input ------------------------------------------------------------------------

pub open spec fn or_one(n: Option<usize>) -> int {
    match n {
        Some(n) => n as int,
        None => 1,
    }
}

/// `a * b`, or the largest number when that is beyond it.
pub open spec fn times(a: int, b: int) -> int {
    if a * b <= usize::MAX {
        a * b
    } else {
        usize::MAX as int
    }
}

impl Vim {
    /// Nothing typed that waits for more.
    pub open spec fn reset_pending(self) -> Vim {
        Vim {
            count: None,
            register: None,
            register_pending: false,
            op: None,
            op_count: None,
            cmd_seq: Seq::empty(),
            char_arg_cmd: None,
            char_arg: None,
            ..self
        }
    }

    /// The count for a command: the one before the operator times the one
    /// behind it.
    pub open spec fn total_count(self) -> int {
        times(or_one(self.count), or_one(self.op_count))
    }

    /// The counts used up.
    pub open spec fn without_count(self) -> Vim {
        Vim { count: None, op_count: None, ..self }
    }

    /// No command is pending: no count, register, operator, argument or key
    /// is waited for.
    pub open spec fn idle(self) -> bool {
        &&& self.count is None
        &&& self.register is None
        &&& !self.register_pending
        &&& self.op is None
        &&& self.op_count is None
        &&& self.cmd_seq.len() == 0
        &&& self.char_arg_cmd is None
        &&& self.pending_keys.len() == 0
    }
}

/// Without pending input the engine is idle, but for queued keys.
pub proof fn reset_makes_idle(v: Vim)
    requires
        v.pending_keys.len() == 0,
    ensures
        v.reset_pending().idle(),
{
}

impl VimState {
    pub(crate) fn reset_pending(&mut self)
        ensures
            final(self)@ == old(self)@.reset_pending(),
    {
        self.count = None;
        self.register = None;
        self.register_pending = false;
        self.op = None;
        self.op_count = None;
        self.cmd_seq = Vec::new();
        self.char_arg_cmd = None;
        self.char_arg = None;
        proof {
            lemma_empty();
        }
    }

    pub(crate) fn take_total_count(&mut self) -> (n: usize)
        ensures
            n == old(self)@.total_count(),
            final(self)@ == old(self)@.without_count(),
    {
        let pre: usize = match self.count {
            Some(n) => n,
            None => 1,
        };
        let post: usize = match self.op_count {
            Some(n) => n,
            None => 1,
        };
        self.count = None;
        self.op_count = None;
        match pre.checked_mul(post) {
            Some(n) => n,
            None => usize::MAX,
        }
    }

    /// No pending count, register, operator, char argument, key sequence or
    /// queued key: the next key starts a new command.
    pub fn is_idle(&self) -> (b: bool)
        ensures
            b == self@.idle(),
    {
        self.count.is_none() && self.register.is_none() && !self.register_pending
            && self.op.is_none() && self.op_count.is_none() && self.cmd_seq.len() == 0
            && self.char_arg_cmd.is_none() && self.pending_keys.len() == 0
    }
}

// ---- recording ------------------------------------------------------------------------------

impl Vim {
    /// The recording thrown away.
    pub open spec fn discard_record(self) -> Vim {
        Vim {
            recording: Seq::empty(),
            recording_mutated: false,
            recording_blocked: false,
            ..self
        }
    }

    /// The recording becomes what `.` repeats, if it changed the text. A
    /// replay records nothing, and a change made in Visual mode is not
    /// repeated.
    #[verifier::opaque]
    pub open spec fn commit_record(self) -> Vim {
        if self.replaying {
            self
        } else if self.recording_blocked {
            self.discard_record()
        } else if self.recording_mutated && self.recording.len() > 0 {
            Vim {
                last_change: self.recording,
                recording: Seq::empty(),
                recording_mutated: false,
                ..self
            }
        } else {
            Vim { recording: Seq::empty(), recording_mutated: false, ..self }
        }
    }

    /// One more step in the recording and in a macro that is recorded, unless
    /// steps are being replayed.
    #[verifier::opaque]
    pub open spec fn record(self, step: Step) -> Vim {
        if self.replaying {
            self
        } else {
            Vim {
                recording: self.recording.push(step),
                macro_capture: match self.macro_capture {
                    Some((reg, keys)) => Some((reg, keys.push(step))),
                    None => None,
                },
                ..self
            }
        }
    }

    /// The last step taken back.
    #[verifier::opaque]
    pub open spec fn unrecord(self) -> Vim {
        if self.replaying {
            self
        } else {
            Vim {
                recording: without_last(self.recording),
                macro_capture: match self.macro_capture {
                    Some((reg, keys)) => Some((reg, without_last(keys))),
                    None => None,
                },
                ..self
            }
        }
    }

    /// A complete command ends: its record is committed and its undo group
    /// closed, unless it goes on as an insert session.
    #[verifier::opaque]
    pub open spec fn end_command(self) -> Vim {
        let v = if self.insert_session is None {
            self.commit_record()
        } else {
            self
        };
        Vim {
            count: None,
            register: None,
            register_pending: false,
            cmd_seq: Seq::empty(),
            open_undo: if self.insert_session is None {
                None
            } else {
                self.open_undo
            },
            ..v
        }
    }
}

pub open spec fn without_last(s: Seq<Step>) -> Seq<Step> {
    if s.len() > 0 {
        s.drop_last()
    } else {
        s
    }
}

impl VimState {
    /// Visual-mode changes are not repeatable in v1: discard the recording.
    pub(crate) fn discard_change_record(&mut self)
        ensures
            final(self)@ == old(self)@.discard_record(),
    {
        self.recording = Vec::new();
        self.recording_mutated = false;
        self.recording_blocked = false;
        proof {
            lemma_empty();
        }
    }

    fn clear_recording(&mut self)
        ensures
            final(self)@ == (Vim {
                recording: Seq::empty(),
                recording_mutated: false,
                ..old(self)@
            }),
    {
        self.recording = Vec::new();
        self.recording_mutated = false;
        proof {
            lemma_empty();
        }
    }

    /// End of a complete top-level command: commit the recording if the
    /// command mutated the buffer. An active insert session commits later,
    /// in `exit_insert` (the session is part of the same change).
    pub(crate) fn commit_change_record(&mut self)
        ensures
            final(self)@ == old(self)@.commit_record(),
            final(self)@.told == old(self)@.told,
    {
        proof {
            reveal(Vim::commit_record);
        }
        if self.replaying {
            return;
        }
        if self.recording_blocked {
            self.discard_change_record();
        } else {
            if self.recording_mutated && self.recording.len() > 0 {
                let mut taken: Vec<RecordedStep> = Vec::new();
                std::mem::swap(&mut taken, &mut self.recording);
                self.last_change = taken;
            }
            self.clear_recording();
        }
    }

    /// Records one key.
    pub(crate) fn record_key(&mut self, key: &Key)
        ensures
            final(self)@ == old(self)@.record(Step::Key(key@)),
            final(self)@.told == old(self)@.told,
    {
        proof {
            reveal(Vim::record);
        }
        if self.replaying {
            return;
        }
        let ghost before = self.recording@;
        self.recording.push(RecordedStep::Key(key.clone()));
        proof {
            lemma_push_step(before, self.recording@.last());
        }
        self.capture(RecordedStep::Key(key.clone()));
    }

    /// Adds a step to the macro that is recorded.
    fn capture(&mut self, step: RecordedStep)
        ensures
            final(self)@ == (Vim {
                macro_capture: match old(self)@.macro_capture {
                    Some((reg, keys)) => Some((reg, keys.push(step@))),
                    None => None,
                },
                ..old(self)@
            }),
    {
        let taken = self.macro_capture.take();
        if let Some((reg, keys)) = taken {
            let mut keys = keys;
            let ghost before = keys@;
            let ghost seen = step;
            keys.push(step);
            proof {
                lemma_push_step(before, seen);
            }
            self.macro_capture = Some((reg, keys));
        }
    }

    /// Takes the last recorded key back.
    pub(crate) fn unrecord_key(&mut self)
        ensures
            final(self)@ == old(self)@.unrecord(),
            final(self)@.told == old(self)@.told,
    {
        proof {
            reveal(Vim::unrecord);
        }
        if self.replaying {
            return;
        }
        let ghost before = self.recording@;
        let _ = self.recording.pop();
        proof {
            if before.len() > 0 {
                lemma_pop_step(before);
                assert(self.recording@ =~= before.drop_last());
            }
        }
        self.uncapture();
    }

    fn uncapture(&mut self)
        ensures
            final(self)@ == (Vim {
                macro_capture: match old(self)@.macro_capture {
                    Some((reg, keys)) => Some((reg, without_last(keys))),
                    None => None,
                },
                ..old(self)@
            }),
    {
        let taken = self.macro_capture.take();
        if let Some((reg, keys)) = taken {
            let mut keys = keys;
            let ghost before = keys@;
            let _ = keys.pop();
            proof {
                if before.len() > 0 {
                    lemma_pop_step(before);
                    assert(keys@ =~= before.drop_last());
                }
            }
            self.macro_capture = Some((reg, keys));
        }
    }

    /// End of a complete top-level command.
    pub(crate) fn end_command(&mut self)
        ensures
            final(self)@ == old(self)@.end_command(),
            final(self)@.told == old(self)@.told,
    {
        proof {
            reveal(Vim::end_command);
            reveal(Vim::commit_record);
        }
        let session = self.insert_session.is_some();
        if !session {
            self.commit_change_record();
            self.open_undo = None;
        }
        self.count = None;
        self.register = None;
        self.register_pending = false;
        self.cmd_seq = Vec::new();
        proof {
            lemma_empty();
        }
    }
}

// ---- typed text -------------------------------------------------------------------------------

impl Vim {
    /// Typed text as one step: joined to typed text just before it in the
    /// recording, and collected for the rows of a block insert.
    #[verifier::opaque]
    pub open spec fn typed(self, text: Seq<char>) -> Vim {
        if text.len() == 0 || self.replaying || self.recording_suppressed {
            self
        } else {
            let v = Vim {
                block_insert: match self.block_insert {
                    Some(plan) => Some(BlockPlan { text: plan.text + text, ..plan }),
                    None => None,
                },
                ..self
            };
            if self.insert_session is None {
                v
            } else {
                Vim {
                    recording: with_text(self.recording, text),
                    macro_capture: match self.macro_capture {
                        Some((reg, keys)) => Some((reg, keys.push(Step::Text(text)))),
                        None => None,
                    },
                    ..v
                }
            }
        }
    }
}

/// A recording with typed text behind it.
pub open spec fn with_text(recording: Seq<Step>, text: Seq<char>) -> Seq<Step> {
    if recording.len() > 0 && recording.last() is Text {
        recording.drop_last().push(Step::Text(recording.last()->Text_0 + text))
    } else {
        recording.push(Step::Text(text))
    }
}

impl VimState {
    /// Host-side entry for typed/composed text (the IME placement path).
    /// Records the text as ONE Text step for `.`/macro replay — the key
    /// pipeline declines these chars, so recording them as keys too would
    /// double every typed character on replay.
    pub fn record_typed_text(&mut self, text: &str)
        ensures
            final(self)@ == old(self)@.typed(text@),
            final(self)@.told == old(self)@.told,
    {
        proof {
            reveal(Vim::typed);
        }
        if text.is_empty() || self.replaying || self.recording_suppressed {
            return;
        }
        self.add_block_text(text);
        if self.insert_session.is_some() {
            self.add_text_step(text);
            self.capture(RecordedStep::Text(copy_str(text)));
        }
    }

    fn add_block_text(&mut self, text: &str)
        ensures
            final(self)@ == (Vim {
                block_insert: match old(self)@.block_insert {
                    Some(plan) => Some(BlockPlan { text: plan.text + text@, ..plan }),
                    None => None,
                },
                ..old(self)@
            }),
    {
        let taken = self.block_insert.take();
        if let Some(block) = taken {
            let mut block = block;
            block.text.push_str(text);
            self.block_insert = Some(block);
        }
    }

    fn add_text_step(&mut self, text: &str)
        ensures
            final(self)@ == (Vim {
                recording: with_text(old(self)@.recording, text@),
                ..old(self)@
            }),
    {
        let ghost before = self.recording@;
        let last = self.recording.pop();
        match last {
            Some(RecordedStep::Text(existing)) => {
                let mut joined = existing;
                joined.push_str(text);
                self.recording.push(RecordedStep::Text(joined));
                proof {
                    assert(steps(self.recording@) =~= with_text(steps(before), text@));
                }
            },
            Some(step) => {
                self.recording.push(step);
                self.recording.push(RecordedStep::Text(copy_str(text)));
                proof {
                    assert(steps(self.recording@) =~= with_text(steps(before), text@));
                }
            },
            None => {
                self.recording.push(RecordedStep::Text(copy_str(text)));
                proof {
                    assert(steps(self.recording@) =~= with_text(steps(before), text@));
                }
            },
        }
    }
}

/// Text typed in pieces during an insert session is recorded as if it had
/// been typed at once.
pub proof fn typing_in_pieces(v: Vim, a: Seq<char>, b: Seq<char>)
    requires
        a.len() > 0,
        b.len() > 0,
        v.macro_capture is None,
    ensures
        v.typed(a).typed(b) == v.typed(a + b),
{
    reveal(Vim::typed);
    let ab = a + b;
    assert(with_text(with_text(v.recording, a), b) =~= with_text(v.recording, ab)) by {
        if v.recording.len() > 0 && v.recording.last() is Text {
            let t = v.recording.last()->Text_0;
            assert((t + a) + b =~= t + ab);
        }
    }
    if let Some(plan) = v.block_insert {
        assert((plan.text + a) + b =~= plan.text + ab);
    }
}

/// Recording a step and taking it back leaves the recording as it was.
pub proof fn unrecord_undoes_record(v: Vim, step: Step)
    ensures
        v.record(step).unrecord() == v,
{
    reveal(Vim::record);
    reveal(Vim::unrecord);
    assert(v.recording.push(step).drop_last() =~= v.recording);
    if let Some((reg, keys)) = v.macro_capture {
        assert(keys.push(step).drop_last() =~= keys);
    }
}

} // verus!
