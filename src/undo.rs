use vstd::prelude::*;

verus! {

/// The most snapshots the history keeps.
pub const HISTORY_LIMIT: usize = 50;

/// The history after recording `snapshot`: when it is already full, the
/// oldest entry leaves first.
pub open spec fn recorded(h: Seq<Seq<char>>, snapshot: Seq<char>) -> Seq<Seq<char>> {
    if h.len() >= HISTORY_LIMIT {
        h.drop_first().push(snapshot)
    } else {
        h.push(snapshot)
    }
}

/// A bounded history of earlier document snapshots, oldest first.
pub struct UndoStack {
    entries: Vec<String>,
}

impl View for UndoStack {
    type V = Seq<Seq<char>>;

    closed spec fn view(&self) -> Seq<Seq<char>> {
        self.entries@.map_values(|s: String| s@)
    }
}

impl UndoStack {
    pub open spec fn wf(&self) -> bool {
        self@.len() <= HISTORY_LIMIT
    }

    /// An empty history.
    pub fn new() -> (r: UndoStack)
        ensures
            r.wf(),
            r@ == Seq::<Seq<char>>::empty(),
    {
        let r = UndoStack { entries: Vec::new() };
        assert(r@ =~= Seq::<Seq<char>>::empty());
        r
    }

    /// The number of snapshots held.
    pub fn len(&self) -> (r: usize)
        ensures
            r == self@.len(),
    {
        self.entries.len()
    }

    /// Appends `snapshot`, evicting the oldest entry when the history is full.
    pub fn record(&mut self, snapshot: String)
        requires
            old(self).wf(),
        ensures
            final(self).wf(),
            final(self)@ == recorded(old(self)@, snapshot@),
    {
        let ghost h = self@;
        if self.entries.len() >= HISTORY_LIMIT {
            self.entries.remove(0);
            assert(self@ =~= h.drop_first());
        }
        let ghost mid = self@;
        self.entries.push(snapshot);
        assert(self@ =~= mid.push(snapshot@));
    }

    /// Removes and returns the most recent snapshot, if any.
    pub fn pop(&mut self) -> (r: Option<String>)
        requires
            old(self).wf(),
        ensures
            final(self).wf(),
            old(self)@.len() == 0 ==> r is None && final(self)@ == old(self)@,
            old(self)@.len() > 0 ==> r is Some && r->0@ == old(self)@.last()
                && final(self)@ == old(self)@.drop_last(),
    {
        let ghost h = self@;
        let r = self.entries.pop();
        assert(self@ =~= if h.len() > 0 { h.drop_last() } else { h });
        r
    }
}

} // verus!
