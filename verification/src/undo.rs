//! Undo/redo stack: reversible edits recorded as full text snapshots,
//! with time-based coalescing of rapid consecutive keystrokes.

use vstd::prelude::*;
use crate::clock;

verus! {

/// Two edits recorded within this many milliseconds coalesce into one entry.
pub const COALESCE_MS: u128 = 2000;

/// One recorded edit: the text before it, the text after it, the cursor
/// coordinate to restore on redo, and the time the edit was recorded.
pub struct Undo {
    pub undo_data: String,
    pub redo_data: String,
    pub redo_pos: (usize, usize),

    pub time_stamp: u128,
}

/// A sequence of entries with a current index; -1 means "no entries applied".
pub struct UndoStack {
    pub stack: Vec<Undo>,

    pub index: isize,
}

/// The stack invariant: the index points at an entry or just below the first.
pub open spec fn stack_wf(s: UndoStack) -> bool {
    &&& -1 <= s.index < s.stack@.len()
    &&& s.stack@.len() <= isize::MAX
}

/// Does a new edit at `time` coalesce into the entry at the current index?
pub open spec fn coalesces(s: UndoStack, time: u128) -> bool {
    s.index >= 0 && (time as int) < s.stack@[s.index as int].time_stamp + COALESCE_MS
}

/// The entry `e` records undo text `u`, redo text `r`, redo cursor `p`, time `t`.
pub open spec fn entry_records(e: Undo, u: Seq<char>, r: Seq<char>, p: (usize, usize), t: u128) -> bool {
    &&& e.undo_data@ == u
    &&& e.redo_data@ == r
    &&& e.redo_pos == p
    &&& e.time_stamp == t
}

/// Full description of what recording an edit at `time` does to the stack:
/// either the top entry's redo side is overwritten in place (coalescing),
/// or the stale redo branch above the index is discarded and a new entry
/// is appended.
pub open spec fn add_post(
    pre: UndoStack,
    post: UndoStack,
    u: Seq<char>,
    r: Seq<char>,
    p: (usize, usize),
    time: u128,
) -> bool {
    if coalesces(pre, time) {
        &&& post.index == pre.index
        &&& post.stack@.len() == pre.stack@.len()
        &&& forall|i: int| 0 <= i < pre.stack@.len() && i != pre.index ==> post.stack@[i] == pre.stack@[i]
        &&& entry_records(post.stack@[pre.index as int], pre.stack@[pre.index as int].undo_data@, r, p, time)
    } else {
        &&& post.index == pre.index + 1
        &&& post.stack@.len() == pre.index + 2
        &&& forall|i: int| 0 <= i <= pre.index ==> post.stack@[i] == pre.stack@[i]
        &&& entry_records(post.stack@[pre.index + 1], u, r, p, time)
    }
}

/// The chain invariant that edit recording maintains on the live entries
/// (those at positions below `hi`): the first entry's undo snapshot is the
/// base text, and each entry's undo snapshot is the previous entry's redo
/// snapshot. Entries at `hi` and above may be a stale redo branch.
pub open spec fn chained_upto(s: Seq<Undo>, base: Seq<char>, hi: int) -> bool {
    &&& 0 < hi <= s.len() ==> s[0].undo_data@ == base
    &&& forall|i: int| 1 <= i < hi && i < s.len() ==> s[i].undo_data@ == s[i - 1].redo_data@
}

/// The document text that corresponds to stack position `index`:
/// the base text at -1, else the redo snapshot of the entry at `index`.
pub open spec fn text_at(s: Seq<Undo>, base: Seq<char>, index: int) -> Seq<char> {
    if index < 0 {
        base
    } else {
        s[index].redo_data@
    }
}

impl UndoStack {
    /// An empty stack, at the bottom.
    pub fn new() -> (s: UndoStack)
        ensures
            s.stack@.len() == 0,
            s.index == -1,
            stack_wf(s),
    {
        UndoStack { stack: Vec::new(), index: -1 }
    }

    /// There is an entry to undo exactly when the index has not hit the bottom.
    pub fn has_undo(&self) -> (r: bool)
        ensures
            r == (self.index >= 0),
    {
        self.index >= 0
    }

    /// There is an entry to redo exactly when entries remain above the index.
    pub fn has_redo(&self) -> (r: bool)
        requires
            stack_wf(*self),
        ensures
            r == (self.index < self.stack@.len() - 1),
    {
        if self.index >= -1 && self.index < self.stack.len() as isize - 1 {
            return true;
        }
        false
    }

    /// Returns the pre-edit text snapshot at the current index and steps the
    /// index down. The caller applies the returned text to the document.
    pub fn undo(&mut self) -> (r: String)
        requires
            stack_wf(*old(self)),
            old(self).index >= 0,
        ensures
            stack_wf(*final(self)),
            final(self).index == old(self).index - 1,
            final(self).stack == old(self).stack,
            r@ == old(self).stack@[old(self).index as int].undo_data@,
    {
        let rc = self.stack[self.index as usize].undo_data.clone();
        self.index = self.index - 1;
        rc
    }

    /// Steps the index up and returns the post-edit text snapshot and the
    /// cursor coordinate to restore. The caller applies both.
    pub fn redo(&mut self) -> (r: (String, (usize, usize)))
        requires
            stack_wf(*old(self)),
            old(self).index < old(self).stack@.len() - 1,
        ensures
            stack_wf(*final(self)),
            final(self).index == old(self).index + 1,
            final(self).stack == old(self).stack,
            r.0@ == final(self).stack@[final(self).index as int].redo_data@,
            r.1 == final(self).stack@[final(self).index as int].redo_pos,
    {
        self.index = self.index + 1;
        let rc = (
            self.stack[self.index as usize].redo_data.clone(),
            self.stack[self.index as usize].redo_pos,
        );
        rc
    }

    /// Records an edit with an explicit timestamp: coalesce into the top
    /// entry if it is younger than the coalescing window, else truncate the
    /// redo branch and push a new entry.
    pub fn add_at(&mut self, undo: String, redo: String, redo_pos: (usize, usize), time: u128)
        requires
            stack_wf(*old(self)),
            old(self).stack@.len() < isize::MAX,
        ensures
            stack_wf(*final(self)),
            add_post(*old(self), *final(self), undo@, redo@, redo_pos, time),
    {
        if self.index >= 0 {
            let ts = self.stack[self.index as usize].time_stamp;

            // If the top entry is less than the window old, replace its redo side
            if time <= ts || time - ts < COALESCE_MS {
                let prev = self.stack[self.index as usize].undo_data.clone();
                self.stack.set(
                    self.index as usize,
                    Undo { undo_data: prev, redo_data: redo, redo_pos, time_stamp: time },
                );
                assert(self.stack@[self.index as int].undo_data@
                    == old(self).stack@[self.index as int].undo_data@);
                return;
            }
        }

        let keep: usize = (self.index + 1) as usize;
        while self.stack.len() > keep
            invariant
                self.index == old(self).index,
                keep == self.index + 1,
                keep <= self.stack@.len() <= old(self).stack@.len(),
                forall|i: int| 0 <= i < self.stack@.len() ==> self.stack@[i] == old(self).stack@[i],
            decreases self.stack@.len(),
        {
            self.stack.pop();
        }

        self.stack.push(Undo { undo_data: undo, redo_data: redo, redo_pos, time_stamp: time });

        self.index = self.index + 1;
    }

    /// Records an edit stamped with the wall clock. Whatever time the clock
    /// returned, the stack changed as `add_post` describes for that time.
    pub fn add(&mut self, undo: String, redo: String, redo_pos: (usize, usize))
        requires
            stack_wf(*old(self)),
            old(self).stack@.len() < isize::MAX,
        ensures
            stack_wf(*final(self)),
            exists|t: u128| add_post(*old(self), *final(self), undo@, redo@, redo_pos, t),
    {
        let time = clock::get_time();
        self.add_at(undo, redo, redo_pos, time);
        assert(add_post(*old(self), *self, undo@, redo@, redo_pos, time));
    }
}

/// Law: under the chain invariant, what `undo` returns at index `i` is
/// exactly the document text that belongs to index `i - 1`, so repeating
/// `undo` back to index -1 ends at the base text.
pub proof fn lemma_undo_restores_previous(s: Seq<Undo>, base: Seq<char>, i: int)
    requires
        chained_upto(s, base, i + 1),
        0 <= i < s.len(),
    ensures
        s[i].undo_data@ == text_at(s, base, i - 1),
{
}

/// Law: under the chain invariant, what `redo` returns at index `i` is
/// exactly the document text that belongs to index `i`, so replaying `redo`
/// up to the top ends at the final text.
pub proof fn lemma_redo_restores_next(s: Seq<Undo>, base: Seq<char>, i: int)
    requires
        chained_upto(s, base, i + 1),
        0 <= i < s.len(),
    ensures
        s[i].redo_data@ == text_at(s, base, i),
{
}

/// Law: recording an edit whose undo snapshot is the current document text
/// preserves the chain invariant on the live entries, and the current
/// document text afterwards is the new entry's redo snapshot.
pub proof fn lemma_add_preserves_chain(
    pre: UndoStack,
    post: UndoStack,
    u: Seq<char>,
    r: Seq<char>,
    p: (usize, usize),
    time: u128,
    base: Seq<char>,
)
    requires
        stack_wf(pre),
        chained_upto(pre.stack@, base, pre.index + 1),
        add_post(pre, post, u, r, p, time),
        u == text_at(pre.stack@, base, pre.index as int),
    ensures
        chained_upto(post.stack@, base, post.index + 1),
        text_at(post.stack@, base, post.index as int) == r,
{
    if coalesces(pre, time) {
        assert forall|i: int| 1 <= i < post.index + 1 && i < post.stack@.len()
            implies post.stack@[i].undo_data@ == post.stack@[i - 1].redo_data@ by {
            assert(post.stack@[i - 1] == pre.stack@[i - 1]);
            if i != pre.index {
                assert(post.stack@[i] == pre.stack@[i]);
            }
        }
    } else {
        assert forall|i: int| 1 <= i < post.index + 1 && i < post.stack@.len()
            implies post.stack@[i].undo_data@ == post.stack@[i - 1].redo_data@ by {
            assert(post.stack@[i - 1] == pre.stack@[i - 1]);
            if i <= pre.index {
                assert(post.stack@[i] == pre.stack@[i]);
            }
        }
    }
}

/// Law: after an edit that pushed a new entry, a second edit recorded less
/// than the coalescing window later leaves the entry count unchanged (one
/// entry for both edits), while one recorded at or past the window appends
/// a second entry.
pub proof fn lemma_coalescing(
    pre: UndoStack,
    mid: UndoStack,
    post: UndoStack,
    u1: Seq<char>,
    r1: Seq<char>,
    p1: (usize, usize),
    t1: u128,
    u2: Seq<char>,
    r2: Seq<char>,
    p2: (usize, usize),
    t2: u128,
)
    requires
        stack_wf(pre),
        stack_wf(mid),
        !coalesces(pre, t1),
        add_post(pre, mid, u1, r1, p1, t1),
        add_post(mid, post, u2, r2, p2, t2),
    ensures
        (t2 as int) < t1 + COALESCE_MS ==> post.stack@.len() == mid.stack@.len(),
        t1 + COALESCE_MS <= (t2 as int) ==> post.stack@.len() == mid.stack@.len() + 1,
{
    assert(mid.index == pre.index + 1);
    assert(mid.stack@[mid.index as int].time_stamp == t1);
    assert(coalesces(mid, t2) == ((t2 as int) < t1 + COALESCE_MS));
    if !coalesces(mid, t2) {
        assert(post.stack@.len() == mid.index + 2);
        assert(mid.stack@.len() == pre.index + 2);
    }
}

} // verus!
