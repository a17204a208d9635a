//! Replaying recorded steps: `.` and macros.
use crate::key::{named_stroke, strokes, Key, Stroke};
use crate::state::{steps, texts_of, RecordedStep, Step, Vim, VimState};
use vstd::prelude::*;

verus! {

/// Stands in the queue where recorded text is to be placed. No real key has
/// this name.
pub open spec fn text_marker() -> Stroke {
    named_stroke("\u{0}dot-text"@)
}

pub(crate) fn text_marker_key() -> (k: Key)
    ensures
        k@ == text_marker(),
{
    Key::named("\u{0}dot-text")
}

/// The key that replays a step.
pub open spec fn step_key(s: Step) -> Stroke {
    match s {
        Step::Key(k) => k,
        Step::Text(_) => text_marker(),
    }
}

/// The keys that replay some steps.
pub open spec fn keys_of(s: Seq<Step>) -> Seq<Stroke> {
    s.map_values(|step: Step| step_key(step))
}

/// The texts that are placed when some steps are replayed.
pub open spec fn texts_in(s: Seq<Step>) -> Seq<Seq<char>>
    decreases s.len(),
{
    if s.len() == 0 {
        Seq::empty()
    } else {
        match s.last() {
            Step::Key(_) => texts_in(s.drop_last()),
            Step::Text(t) => texts_in(s.drop_last()).push(t),
        }
    }
}

/// `s`, `n` times.
pub open spec fn copies<T>(s: Seq<T>, n: int) -> Seq<T>
    decreases n,
{
    if n <= 0 {
        Seq::empty()
    } else {
        copies(s, n - 1) + s
    }
}

impl Vim {
    /// Some steps waiting to be replayed `n` times; nothing is recorded
    /// meanwhile.
    #[verifier::opaque]
    pub open spec fn replay(self, s: Seq<Step>, n: int) -> Vim {
        Vim {
            pending_keys: self.pending_keys + copies(keys_of(s), n),
            replay_texts: self.replay_texts + copies(texts_in(s), n),
            replaying: true,
            recording: Seq::empty(),
            recording_mutated: false,
            ..self
        }
    }
}

/// Queues the steps behind what waits already.
fn queue_steps(keys: &mut Vec<Key>, texts: &mut Vec<String>, list: &Vec<RecordedStep>)
    ensures
        strokes(final(keys)@) == strokes(old(keys)@) + keys_of(steps(list@)),
        texts_of(final(texts)@) == texts_of(old(texts)@) + texts_in(steps(list@)),
{
    let ghost all = steps(list@);
    let ghost k0 = strokes(keys@);
    let ghost t0 = texts_of(texts@);
    let mut i: usize = 0;
    proof {
        assert(keys_of(all.take(0)) =~= Seq::empty());
        assert(all.take(0) =~= Seq::empty());
        assert(strokes(keys@) =~= k0 + keys_of(all.take(0)));
        assert(texts_of(texts@) =~= t0 + texts_in(all.take(0)));
    }
    while i < list.len()
        invariant
            i <= list.len(),
            all == steps(list@),
            strokes(keys@) == k0 + keys_of(all.take(i as int)),
            texts_of(texts@) == t0 + texts_in(all.take(i as int)),
        decreases list.len() - i,
    {
        let ghost k1 = strokes(keys@);
        let ghost t1 = texts_of(texts@);
        proof {
            assert(all.take(i + 1).drop_last() =~= all.take(i as int));
            assert(all.take(i + 1).last() == list@[i as int]@);
            assert(keys_of(all.take(i + 1)) =~= keys_of(all.take(i as int)).push(
                step_key(list@[i as int]@),
            ));
        }
        match &list[i] {
            RecordedStep::Key(key) => {
                keys.push(key.clone());
            },
            RecordedStep::Text(text) => {
                texts.push(text.clone());
                keys.push(text_marker_key());
                proof {
                    assert(texts_of(texts@) =~= t1.push(text@));
                    assert(t1.push(text@) =~= t0 + texts_in(all.take(i as int)).push(text@));
                }
            },
        }
        proof {
            assert(strokes(keys@) =~= k1.push(step_key(list@[i as int]@)));
            assert(strokes(keys@) =~= k0 + keys_of(all.take(i + 1)));
        }
        i = i + 1;
    }
    proof {
        assert(all.take(i as int) =~= all);
    }
}

fn queue_copies(keys: &mut Vec<Key>, texts: &mut Vec<String>, list: &Vec<RecordedStep>, n: usize)
    ensures
        strokes(final(keys)@) == strokes(old(keys)@) + copies(keys_of(steps(list@)), n as int),
        texts_of(final(texts)@) == texts_of(old(texts)@) + copies(
            texts_in(steps(list@)),
            n as int,
        ),
{
    let ghost ks = keys_of(steps(list@));
    let ghost ts = texts_in(steps(list@));
    let ghost k0 = strokes(keys@);
    let ghost t0 = texts_of(texts@);
    let mut i: usize = 0;
    proof {
        assert(strokes(keys@) =~= k0 + copies(ks, 0));
        assert(texts_of(texts@) =~= t0 + copies(ts, 0));
    }
    while i < n
        invariant
            i <= n,
            ks == keys_of(steps(list@)),
            ts == texts_in(steps(list@)),
            strokes(keys@) == k0 + copies(ks, i as int),
            texts_of(texts@) == t0 + copies(ts, i as int),
        decreases n - i,
    {
        queue_steps(keys, texts, list);
        i = i + 1;
        proof {
            assert(strokes(keys@) =~= k0 + copies(ks, i as int));
            assert(texts_of(texts@) =~= t0 + copies(ts, i as int));
        }
    }
}

impl VimState {
    /// Queues recorded steps; they flow through the pipeline with recording
    /// suppressed.
    pub(crate) fn replay(&mut self, list: &Vec<RecordedStep>, n: usize)
        ensures
            final(self)@ == old(self)@.replay(steps(list@), n as int),
            final(self)@.told == old(self)@.told,
    {
        proof {
            reveal(Vim::replay);
        }
        queue_copies(&mut self.pending_keys, &mut self.replay_texts, list, n);
        self.replaying = true;
        self.recording = Vec::new();
        self.recording_mutated = false;
        proof {
            assert(steps(self.recording@) =~= Seq::empty());
        }
    }
}

} // verus!
