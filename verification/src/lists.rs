//! The jumplist, the changelist and what follows every change.
use crate::buffer::VimBufferMut;
use crate::host::{hears, HostCall, VimHost};
use crate::marks::MarkSet;
use crate::state::{Ctx, Vim, VimState, World};
use vstd::prelude::*;

verus! {

/// No list of positions is longer.
pub const LIST_LIMIT: usize = 100;

/// A list cut off behind its `pos`-th entry.
pub open spec fn cut_behind(list: Seq<usize>, pos: int) -> Seq<usize> {
    if pos + 1 < list.len() {
        list.take(pos + 1)
    } else {
        list
    }
}

/// A list with `p` at its end.
pub open spec fn ending_in(list: Seq<usize>, p: usize) -> Seq<usize> {
    if list.len() > 0 && list.last() == p {
        list
    } else {
        list.push(p)
    }
}

/// The newest entries of a list, as many as it may hold.
pub open spec fn newest(list: Seq<usize>) -> Seq<usize> {
    if list.len() > LIST_LIMIT {
        list.skip(list.len() - LIST_LIMIT)
    } else {
        list
    }
}

/// The jumplist after a jump: what came behind the current entry is dropped,
/// where the jump came from and went to stands at the end.
pub open spec fn jumped(list: Seq<usize>, pos: int, origin: usize, dest: usize) -> Seq<usize> {
    newest(ending_in(ending_in(cut_behind(list, pos), origin), dest))
}

/// The changelist after a change at `at`.
pub open spec fn with_change(list: Seq<usize>, pos: int, at: usize) -> Seq<usize> {
    let all = cut_behind(list, pos).push(at);
    if all.len() > LIST_LIMIT {
        all.skip(1)
    } else {
        all
    }
}

impl Vim {
    #[verifier::opaque]
    pub open spec fn record_jump(self, origin: usize, dest: usize) -> Vim {
        let jumps = jumped(self.jumps, self.jump_pos as int, origin, dest);
        Vim { jumps, jump_pos: (jumps.len() - 1) as usize, ..self }
    }

    /// The change at the cursor noted: in the mark `.` and, unless it is the
    /// newest there already, in the changelist.
    #[verifier::opaque]
    pub open spec fn note_change(self) -> Vim {
        let at = self.cursor.offset;
        let v = Vim { marks: MarkSet { last_change: Some(at), ..self.marks }, ..self };
        if self.changes.len() > 0 && self.changes.last() == at {
            v
        } else {
            let changes = with_change(self.changes, self.change_pos as int, at);
            Vim { changes, change_pos: (changes.len() - 1) as usize, ..v }
        }
    }
}

/// The jumplist stays bounded, and the current entry is where the jump went.
pub proof fn jumplist_after_jump(v: Vim, origin: usize, dest: usize)
    ensures
        v.record_jump(origin, dest).jumps.len() <= LIST_LIMIT,
        v.record_jump(origin, dest).jump_pos < v.record_jump(origin, dest).jumps.len(),
        v.record_jump(origin, dest).jumps[v.record_jump(origin, dest).jump_pos as int] == dest,
{
    reveal(Vim::record_jump);
}

/// One step back from where a jump went is where it came from.
pub proof fn jump_then_back(v: Vim, origin: usize, dest: usize)
    requires
        origin != dest,
    ensures
        ({
            let w = v.record_jump(origin, dest);
            w.jump_pos > 0 && w.jumps[w.jump_pos - 1] == origin
        }),
{
    reveal(Vim::record_jump);
}

/// The changelist stays bounded as long as it is made by changes alone, and
/// its current entry is the newest change.
pub proof fn changelist_after_change(v: Vim)
    requires
        v.changes.len() <= LIST_LIMIT,
        v.changes.len() > 0 ==> v.change_pos < v.changes.len(),
    ensures
        v.note_change().changes.len() <= LIST_LIMIT,
        v.note_change().change_pos < v.note_change().changes.len(),
        v.note_change().changes.last() == v.cursor.offset,
{
    reveal(Vim::note_change);
}

fn last_is(list: &Vec<usize>, p: usize) -> (b: bool)
    ensures
        b == (list@.len() > 0 && list@.last() == p),
{
    list.len() > 0 && list[list.len() - 1] == p
}

fn cut(list: &mut Vec<usize>, pos: usize)
    ensures
        final(list)@ == cut_behind(old(list)@, pos as int),
{
    if pos < list.len() && pos + 1 < list.len() {
        list.truncate(pos + 1);
        proof {
            assert(list@ =~= old(list)@.take(pos + 1));
        }
    }
}

fn drop_oldest(list: &Vec<usize>, from: usize) -> (r: Vec<usize>)
    requires
        from <= list.len(),
    ensures
        r@ == list@.skip(from as int),
{
    let mut r: Vec<usize> = Vec::new();
    let mut i: usize = from;
    while i < list.len()
        invariant
            from <= i <= list.len(),
            r@ == list@.subrange(from as int, i as int),
        decreases list.len() - i,
    {
        let p = list[i];
        r.push(p);
        proof {
            assert(r@ =~= list@.subrange(from as int, i + 1));
        }
        i = i + 1;
    }
    proof {
        assert(r@ =~= list@.skip(from as int));
    }
    r
}

fn jump_list(list: &mut Vec<usize>, pos: usize, origin: usize, dest: usize)
    ensures
        final(list)@ == jumped(old(list)@, pos as int, origin, dest),
        final(list)@.len() > 0,
{
    cut(list, pos);
    if !last_is(list, origin) {
        list.push(origin);
    }
    if !last_is(list, dest) {
        list.push(dest);
    }
    if list.len() > LIST_LIMIT {
        let kept = drop_oldest(list, list.len() - LIST_LIMIT);
        *list = kept;
    }
}

fn change_list(list: &mut Vec<usize>, pos: usize, at: usize)
    ensures
        final(list)@ == with_change(old(list)@, pos as int, at),
        final(list)@.len() > 0,
{
    cut(list, pos);
    list.push(at);
    if list.len() > LIST_LIMIT {
        let kept = drop_oldest(list, 1);
        *list = kept;
    }
}

impl World {
    /// What follows every change: it is noted, the highlights follow the text
    /// and the host repaints.
    #[verifier::opaque]
    pub open spec fn bump<B: VimBufferMut>(self) -> World {
        World { vim: self.vim.note_change().republished::<B>(self.doc), ..self }.say(
            HostCall::Changed,
        )
    }
}

impl VimState {
    /// Append a jump (origin -> dest) to the jumplist, discarding any
    /// forward entries (like stepping back then jumping anew in a browser).
    pub(crate) fn record_jump(&mut self, origin: usize, dest: usize)
        ensures
            final(self)@ == old(self)@.record_jump(origin, dest),
            final(self)@.told == old(self)@.told,
    {
        proof {
            reveal(Vim::record_jump);
        }
        let pos = self.jump_pos;
        jump_list(&mut self.jumps, pos, origin, dest);
        self.jump_pos = self.jumps.len() - 1;
    }

    fn note_change(&mut self)
        ensures
            final(self)@ == old(self)@.note_change(),
            final(self)@.told == old(self)@.told,
    {
        proof {
            reveal(Vim::note_change);
        }
        let at = self.cursor.offset;
        self.marks.set_last_change(at);
        // changelist: dedupe repeats, cap the list
        if !last_is(&self.changes, at) {
            let pos = self.change_pos;
            change_list(&mut self.changes, pos, at);
            self.change_pos = self.changes.len() - 1;
        }
    }

    pub(crate) fn bump<B: VimBufferMut, H: VimHost>(&mut self, ctx: &mut Ctx<B, H>)
        ensures
            *final(final(ctx).buf) == *final(old(ctx).buf),
            *final(final(ctx).host) == *final(old(ctx).host),
            hears(*final(ctx).host, final(self)@.told, *old(ctx).host, old(self)@.told),
            final(ctx).world(*final(self)) == old(ctx).world(*old(self)).bump::<B>(),
            final(ctx).env() == old(ctx).env(),
    {
        proof {
            reveal(World::bump);
        }
        self.note_change();
        self.republish_search(ctx);
        self.notify_changed(ctx);
    }
}

} // verus!
