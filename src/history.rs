//! The undo/redo history: two stacks of committed batches, most recent last.

use vstd::prelude::*;

verus! {

/// One committed batch: `(from, to)` path pairs, in the order they were renamed.
#[derive(Debug)]
pub struct RenameHistory {
    pub operations: Vec<(String, String)>,
}

/// A history entry as text pairs.
pub type Entry = Seq<(Seq<char>, Seq<char>)>;

/// The pairs of an entry as texts.
pub open spec fn entry_of(pairs: Seq<(String, String)>) -> Entry {
    pairs.map_values(|p: (String, String)| (p.0@, p.1@))
}

/// The moves that undo an entry: each `(from, to)` becomes `to -> from`, in the
/// recorded order.
pub open spec fn undo_moves(e: Entry) -> Entry {
    e.map_values(|p: (Seq<char>, Seq<char>)| (p.1, p.0))
}

/// A committed batch pushed onto the undo stack; the redo stack is emptied.
pub open spec fn commit_model(undo: Seq<Entry>, redo: Seq<Entry>, e: Entry) -> (Seq<Entry>, Seq<Entry>) {
    (undo.push(e), Seq::empty())
}

/// The undo stack loses its top entry to the redo stack.
pub open spec fn undo_model(undo: Seq<Entry>, redo: Seq<Entry>) -> (Seq<Entry>, Seq<Entry>) {
    if undo.len() == 0 {
        (undo, redo)
    } else {
        (undo.drop_last(), redo.push(undo.last()))
    }
}

/// The redo stack loses its top entry back to the undo stack.
pub open spec fn redo_model(undo: Seq<Entry>, redo: Seq<Entry>) -> (Seq<Entry>, Seq<Entry>) {
    if redo.len() == 0 {
        (undo, redo)
    } else {
        (undo.push(redo.last()), redo.drop_last())
    }
}

/// The undo and redo stacks of one session.
pub struct HistoryStore {
    undo: Vec<RenameHistory>,
    redo: Vec<RenameHistory>,
}

fn copy_pairs(pairs: &Vec<(String, String)>, swap: bool) -> (r: Vec<(String, String)>)
    ensures
        entry_of(r@) == if swap { undo_moves(entry_of(pairs@)) } else { entry_of(pairs@) },
{
    let mut r: Vec<(String, String)> = Vec::new();
    let mut i: usize = 0;
    while i < pairs.len()
        invariant
            i <= pairs.len(),
            r.len() == i,
            forall|k: int| 0 <= k < i ==> {
                let p = #[trigger] r@[k];
                let q = pairs@[k];
                if swap { p.0@ == q.1@ && p.1@ == q.0@ } else { p.0@ == q.0@ && p.1@ == q.1@ }
            },
        decreases pairs.len() - i,
    {
        let a = pairs[i].0.clone();
        let b = pairs[i].1.clone();
        if swap {
            r.push((b, a));
        } else {
            r.push((a, b));
        }
        i = i + 1;
    }
    if swap {
        assert(entry_of(r@) =~= undo_moves(entry_of(pairs@)));
    } else {
        assert(entry_of(r@) =~= entry_of(pairs@));
    }
    r
}

impl HistoryStore {
    /// The undo stack, oldest first.
    pub closed spec fn undo_stack(&self) -> Seq<Entry> {
        self.undo@.map_values(|h: RenameHistory| entry_of(h.operations@))
    }

    /// The redo stack, oldest first.
    pub closed spec fn redo_stack(&self) -> Seq<Entry> {
        self.redo@.map_values(|h: RenameHistory| entry_of(h.operations@))
    }

    /// An empty history.
    pub fn new() -> (r: HistoryStore)
        ensures
            r.undo_stack() == Seq::<Entry>::empty(),
            r.redo_stack() == Seq::<Entry>::empty(),
    {
        let r = HistoryStore { undo: Vec::new(), redo: Vec::new() };
        assert(r.undo_stack() =~= Seq::<Entry>::empty());
        assert(r.redo_stack() =~= Seq::<Entry>::empty());
        r
    }

    /// How many batches can be undone.
    pub fn undo_depth(&self) -> (r: usize)
        ensures
            r == self.undo_stack().len(),
    {
        self.undo.len()
    }

    /// How many batches can be redone.
    pub fn redo_depth(&self) -> (r: usize)
        ensures
            r == self.redo_stack().len(),
    {
        self.redo.len()
    }

    /// Records a committed batch; nothing is left to redo afterwards.
    pub fn commit(&mut self, entry: RenameHistory)
        ensures
            (final(self).undo_stack(), final(self).redo_stack())
                == commit_model(old(self).undo_stack(), old(self).redo_stack(), entry_of(entry.operations@)),
    {
        self.undo.push(entry);
        self.redo.clear();
        assert(self.undo_stack() =~= old(self).undo_stack().push(entry_of(entry.operations@)));
        assert(self.redo_stack() =~= Seq::<Entry>::empty());
    }

    /// Takes the most recent batch off the undo stack and onto the redo stack,
    /// and gives the `(from, to)` moves that put its files back, in recorded order.
    pub fn undo_last(&mut self) -> (r: Option<Vec<(String, String)>>)
        ensures
            (final(self).undo_stack(), final(self).redo_stack())
                == undo_model(old(self).undo_stack(), old(self).redo_stack()),
            match r {
                Some(moves) => old(self).undo_stack().len() > 0
                    && entry_of(moves@) == undo_moves(old(self).undo_stack().last()),
                None => old(self).undo_stack().len() == 0,
            },
    {
        match self.undo.pop() {
            None => None,
            Some(entry) => {
                let moves = copy_pairs(&entry.operations, true);
                self.redo.push(entry);
                assert(self.undo_stack() =~= old(self).undo_stack().drop_last());
                assert(self.redo_stack() =~= old(self).redo_stack().push(old(self).undo_stack().last()));
                Some(moves)
            },
        }
    }

    /// Takes the most recent undone batch back onto the undo stack, and gives
    /// the `(from, to)` moves that redo it.
    pub fn redo_last(&mut self) -> (r: Option<Vec<(String, String)>>)
        ensures
            (final(self).undo_stack(), final(self).redo_stack())
                == redo_model(old(self).undo_stack(), old(self).redo_stack()),
            match r {
                Some(moves) => old(self).redo_stack().len() > 0
                    && entry_of(moves@) == old(self).redo_stack().last(),
                None => old(self).redo_stack().len() == 0,
            },
    {
        match self.redo.pop() {
            None => None,
            Some(entry) => {
                let moves = copy_pairs(&entry.operations, false);
                self.undo.push(entry);
                assert(self.redo_stack() =~= old(self).redo_stack().drop_last());
                assert(self.undo_stack() =~= old(self).undo_stack().push(old(self).redo_stack().last()));
                Some(moves)
            },
        }
    }
}

/// Undoing right after a commit takes that batch back off the undo stack and
/// leaves it as the only entry to redo; its moves send every `to` back to its
/// `from`, in recorded order.
pub proof fn lemma_undo_after_commit(undo: Seq<Entry>, redo: Seq<Entry>, e: Entry)
    ensures
        ({
            let (u1, r1) = commit_model(undo, redo, e);
            &&& undo_model(u1, r1) == (undo, seq![e])
            &&& undo_moves(u1.last()) == undo_moves(e)
            &&& forall|k: int| 0 <= k < e.len() ==> #[trigger] undo_moves(e)[k] == (e[k].1, e[k].0)
        }),
{
    let (u1, r1) = commit_model(undo, redo, e);
    assert(u1.drop_last() =~= undo);
    assert(r1.push(e) =~= seq![e]);
}

/// Redo after undo restores both stacks.
pub proof fn lemma_redo_after_undo(undo: Seq<Entry>, redo: Seq<Entry>)
    requires
        undo.len() > 0,
    ensures
        ({
            let (u1, r1) = undo_model(undo, redo);
            redo_model(u1, r1) == (undo, redo)
        }),
{
    let (u1, r1) = undo_model(undo, redo);
    assert(u1.push(r1.last()) =~= undo);
    assert(r1.drop_last() =~= redo);
}

} // verus!
