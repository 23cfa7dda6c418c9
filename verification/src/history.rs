//! Snapshot-based undo/redo history.
//!
//! The history stores complete snapshots. `cursor` indexes the snapshot of
//! the current position; the current state is written there (`set_current`)
//! before each action and before each undo or redo, so that the entries
//! hold, in order, the state before each action and the state after the
//! last. Undo and redo move the cursor and hand back the snapshot to
//! restore. Pushing cuts off everything after the cursor (the redo states)
//! and the history is bounded to `MAX_HISTORY` snapshots, the oldest being
//! dropped first.
use vstd::prelude::*;

verus! {

/// Maximum number of stored snapshots (history depth).
pub const MAX_HISTORY: usize = 200;

/// The mathematical state of a history: its snapshots and the cursor.
pub struct HistoryView<S> {
    pub entries: Seq<S>,
    pub cursor: nat,
}

impl<S> HistoryView<S> {
    /// The states a history can be in: either empty with the cursor at 0,
    /// or the cursor on one of at most `MAX_HISTORY` snapshots.
    pub open spec fn valid(self) -> bool {
        &&& self.entries.len() <= MAX_HISTORY
        &&& (self.cursor < self.entries.len() || (self.entries.len() == 0 && self.cursor == 0))
    }

    pub open spec fn can_undo(self) -> bool {
        self.cursor > 0
    }

    pub open spec fn can_redo(self) -> bool {
        self.cursor + 1 < self.entries.len()
    }

    /// The history after `init(snap)`: exactly that snapshot.
    pub open spec fn initialized(snap: S) -> HistoryView<S> {
        HistoryView { entries: seq![snap], cursor: 0 }
    }

    /// The history after `push(snap)`: the redo states are cut off, the
    /// snapshot is appended and becomes current, and if that exceeds the
    /// bound the oldest snapshots are dropped.
    pub open spec fn pushed(self, snap: S) -> HistoryView<S> {
        let kept = if self.cursor + 1 < self.entries.len() {
            self.entries.take(self.cursor + 1int)
        } else {
            self.entries
        };
        let grown = kept.push(snap);
        if grown.len() > MAX_HISTORY {
            HistoryView {
                entries: grown.skip(grown.len() - MAX_HISTORY),
                cursor: (MAX_HISTORY - 1) as nat,
            }
        } else {
            HistoryView { entries: grown, cursor: (grown.len() - 1) as nat }
        }
    }

    /// The history with `snap` recorded as the current state: it replaces
    /// the snapshot under the cursor (an empty history starts with it).
    pub open spec fn with_current(self, snap: S) -> HistoryView<S> {
        if self.entries.len() == 0 {
            HistoryView::initialized(snap)
        } else {
            HistoryView { entries: self.entries.update(self.cursor as int, snap), cursor: self.cursor }
        }
    }

    /// The history as an action starts from the state `snap`: `snap` is
    /// recorded as the current state and pushed as the entry of the action,
    /// which holds the state the action leads to once that is recorded in
    /// turn (by the next action, undo or redo).
    pub open spec fn recorded(self, snap: S) -> HistoryView<S> {
        self.with_current(snap).pushed(snap)
    }

    /// The history after a successful undo.
    pub open spec fn undone(self) -> HistoryView<S> {
        HistoryView { entries: self.entries, cursor: (self.cursor - 1) as nat }
    }

    /// The history after a successful redo.
    pub open spec fn redone(self) -> HistoryView<S> {
        HistoryView { entries: self.entries, cursor: self.cursor + 1 }
    }
}

/// A snapshot of the editor state that undo/redo restores.
pub struct Snapshot<D> {
    pub doc: D,
    pub selection: Vec<u64>,
    pub page_index: usize,
}

impl<D: View> View for Snapshot<D> {
    type V = (D::V, Seq<u64>, usize);

    open spec fn view(&self) -> (D::V, Seq<u64>, usize) {
        (self.doc@, self.selection@, self.page_index)
    }
}

/// The undo/redo history over snapshots of type `S`.
pub struct History<S> {
    snapshots: Vec<S>,
    /// Index of the current state.
    cursor: usize,
}

impl<S: View> View for History<S> {
    type V = HistoryView<S::V>;

    closed spec fn view(&self) -> HistoryView<S::V> {
        HistoryView {
            entries: self.snapshots@.map_values(|s: S| s@),
            cursor: self.cursor as nat,
        }
    }
}

impl<S> History<S> {
    #[verifier::type_invariant]
    spec fn well_formed(self) -> bool {
        &&& self.snapshots@.len() <= MAX_HISTORY
        &&& (self.cursor < self.snapshots@.len() || (self.snapshots@.len() == 0 && self.cursor
            == 0))
    }
}

impl<S: View> History<S> {
    /// An empty history.
    pub fn new() -> (h: Self)
        ensures
            h@.entries == Seq::<S::V>::empty(),
            h@.cursor == 0,
            h@.valid(),
    {
        History { snapshots: Vec::new(), cursor: 0 }
    }

    /// Initializes the history with the starting state.
    pub fn init(&mut self, snap: S)
        ensures
            final(self)@ == HistoryView::initialized(snap@),
            final(self)@.valid(),
    {
        let ghost v = snap@;
        let mut snapshots = Vec::new();
        snapshots.push(snap);
        *self = History { snapshots, cursor: 0 };
        assert(self@.entries =~= seq![v]);
    }

    /// Records a new snapshot, discarding all redo states.
    pub fn push(&mut self, snap: S)
        ensures
            final(self)@ == old(self)@.pushed(snap@),
            final(self)@.valid(),
    {
        proof {
            use_type_invariant(&*self);
        }
        let ghost old_view = self@;
        let ghost sv = snap@;
        let cursor = self.cursor;
        self.cursor = 0;
        let mut snapshots: Vec<S> = Vec::new();
        std::mem::swap(&mut snapshots, &mut self.snapshots);
        let ghost kept = if old_view.cursor + 1 < old_view.entries.len() {
            old_view.entries.take(old_view.cursor + 1int)
        } else {
            old_view.entries
        };
        assert(snapshots@.map_values(|s: S| s@) =~= old_view.entries);
        if cursor + 1 < snapshots.len() {
            snapshots.truncate(cursor + 1);
        }
        assert(snapshots@.map_values(|s: S| s@) =~= kept);
        snapshots.push(snap);
        assert(snapshots@.map_values(|s: S| s@) =~= kept.push(sv));
        let mut cur = snapshots.len() - 1;
        if snapshots.len() > MAX_HISTORY {
            let excess = snapshots.len() - MAX_HISTORY;
            let ghost grown = snapshots@;
            let mut removed: usize = 0;
            while removed < excess
                invariant
                    excess == grown.len() - MAX_HISTORY,
                    removed <= excess,
                    snapshots@ == grown.skip(removed as int),
                decreases excess - removed,
            {
                snapshots.remove(0);
                removed = removed + 1;
                assert(snapshots@ =~= grown.skip(removed as int));
            }
            cur = cur - excess;
            assert(snapshots@.map_values(|s: S| s@) =~= kept.push(sv).skip(excess as int));
        }
        *self = History { snapshots, cursor: cur };
        assert(self@.entries =~= old_view.pushed(sv).entries);
    }

    /// Records `snap` as the current state, in place of the snapshot under
    /// the cursor.
    pub fn set_current(&mut self, snap: S)
        ensures
            final(self)@ == old(self)@.with_current(snap@),
            final(self)@.valid(),
    {
        proof {
            use_type_invariant(&*self);
        }
        if self.snapshots.len() == 0 {
            self.init(snap);
            return;
        }
        let ghost old_view = self@;
        let ghost sv = snap@;
        let cursor = self.cursor;
        self.cursor = 0;
        let mut snapshots: Vec<S> = Vec::new();
        std::mem::swap(&mut snapshots, &mut self.snapshots);
        assert(snapshots@.map_values(|s: S| s@) =~= old_view.entries);
        snapshots.set(cursor, snap);
        assert(snapshots@.map_values(|s: S| s@) =~= old_view.entries.update(cursor as int, sv));
        *self = History { snapshots, cursor };
    }

    /// One step back: returns the snapshot to restore, if there is one.
    pub fn undo(&mut self) -> (r: Option<&S>)
        ensures
            old(self)@.can_undo() ==> final(self)@ == old(self)@.undone() && r is Some
                && r->0@ == old(self)@.entries[old(self)@.cursor - 1],
            !old(self)@.can_undo() ==> final(self)@ == old(self)@ && r is None,
            old(self)@.valid(),
            final(self)@.valid(),
    {
        proof {
            use_type_invariant(&*self);
        }
        if self.cursor == 0 {
            return None;
        }
        self.cursor = self.cursor - 1;
        Some(&self.snapshots[self.cursor])
    }

    /// One step forward: returns the snapshot to restore, if there is one.
    pub fn redo(&mut self) -> (r: Option<&S>)
        ensures
            old(self)@.can_redo() ==> final(self)@ == old(self)@.redone() && r is Some
                && r->0@ == old(self)@.entries[old(self)@.cursor + 1int],
            !old(self)@.can_redo() ==> final(self)@ == old(self)@ && r is None,
            old(self)@.valid(),
            final(self)@.valid(),
    {
        proof {
            use_type_invariant(&*self);
        }
        if self.cursor + 1 >= self.snapshots.len() {
            return None;
        }
        self.cursor = self.cursor + 1;
        Some(&self.snapshots[self.cursor])
    }

    pub fn can_undo(&self) -> (b: bool)
        ensures
            b == self@.can_undo(),
            self@.valid(),
    {
        proof {
            use_type_invariant(self);
        }
        self.cursor > 0
    }

    pub fn can_redo(&self) -> (b: bool)
        ensures
            b == self@.can_redo(),
            self@.valid(),
    {
        proof {
            use_type_invariant(self);
        }
        self.cursor + 1 < self.snapshots.len()
    }

    pub fn len(&self) -> (n: usize)
        ensures
            n == self@.entries.len(),
            self@.valid(),
    {
        proof {
            use_type_invariant(self);
        }
        self.snapshots.len()
    }
}


/// Pushing keeps the history valid and bounded, makes the pushed snapshot
/// the current one and leaves nothing to redo.
pub proof fn lemma_push_makes_current<S>(h: HistoryView<S>, snap: S)
    requires
        h.valid(),
    ensures
        h.pushed(snap).valid(),
        h.pushed(snap).entries.len() <= MAX_HISTORY,
        h.pushed(snap).entries[h.pushed(snap).cursor as int] == snap,
        !h.pushed(snap).can_redo(),
{
}

/// An undo right after a push hands back the snapshot that was current
/// before the push (on a non-empty history).
pub proof fn lemma_undo_after_push<S>(h: HistoryView<S>, snap: S)
    requires
        h.valid(),
        h.entries.len() > 0,
    ensures
        h.pushed(snap).can_undo(),
        h.pushed(snap).entries[h.pushed(snap).cursor - 1] == h.entries[h.cursor as int],
{
}

/// Pushing preserves every snapshot up to and including the current one,
/// as long as the bound drops none of them.
pub proof fn lemma_push_keeps_past<S>(h: HistoryView<S>, snap: S, i: int)
    requires
        h.valid(),
        h.cursor + 2 <= MAX_HISTORY,
        0 <= i <= h.cursor,
        i < h.entries.len(),
    ensures
        h.pushed(snap).entries[i] == h.entries[i],
        h.pushed(snap).cursor == h.cursor + 1 || h.entries.len() == 0,
{
}

/// Redo takes back an undo: the history returns to the exact state it had
/// before the undo, and the redo hands back the snapshot that was current.
pub proof fn lemma_redo_undoes_undo<S>(h: HistoryView<S>)
    requires
        h.valid(),
        h.can_undo(),
    ensures
        h.undone().valid(),
        h.undone().can_redo(),
        h.undone().redone() == h,
        h.undone().entries[h.undone().cursor + 1int] == h.entries[h.cursor as int],
{
}

/// Undo takes back a redo.
pub proof fn lemma_undo_undoes_redo<S>(h: HistoryView<S>)
    requires
        h.valid(),
        h.can_redo(),
    ensures
        h.redone().valid(),
        h.redone().can_undo(),
        h.redone().undone() == h,
        h.redone().entries[h.redone().cursor - 1] == h.entries[h.cursor as int],
{
}

/// A freshly initialized history has nothing to undo or redo.
pub proof fn lemma_initialized_is_idle<S>(snap: S)
    ensures
        HistoryView::initialized(snap).valid(),
        !HistoryView::initialized(snap).can_undo(),
        !HistoryView::initialized(snap).can_redo(),
        HistoryView::initialized(snap).entries[0] == snap,
{
}

/// An undo right after an action hands back the state the action started
/// from, and a redo after that hands back the state the action led to, as
/// recorded by the undo.
pub proof fn lemma_undo_after_recorded<S>(h: HistoryView<S>, before: S, after: S)
    requires
        h.valid(),
    ensures
        h.recorded(before).valid(),
        h.recorded(before).with_current(after).can_undo(),
        h.recorded(before).with_current(after).entries[h.recorded(before).with_current(after).cursor
            - 1] == before,
        h.recorded(before).with_current(after).undone().can_redo(),
        h.recorded(before).with_current(after).undone().entries[h.recorded(before).with_current(
            after,
        ).undone().cursor + 1int] == after,
        !h.recorded(before).can_redo(),
{
}

/// Recording the state that is current does not change the history once
/// the snapshot under the cursor is that state.
pub proof fn lemma_with_current_same<S>(h: HistoryView<S>, snap: S)
    requires
        h.valid(),
        h.entries.len() > 0,
        h.entries[h.cursor as int] == snap,
    ensures
        h.with_current(snap) == h,
{
    assert(h.entries.update(h.cursor as int, snap) =~= h.entries);
}

} // verus!
