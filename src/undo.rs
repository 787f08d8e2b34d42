//! Undoing a stored batch: each successful rename is sent back, one move at a
//! time, skipping those whose file is gone or whose original path is taken.
//! The run is not transactional: a failed move is reported, never rolled back.

use vstd::prelude::*;
use crate::executor::RenameOperationResult;
use crate::history::Entry;
use crate::text::concat_text;

verus! {

/// The outcome of an undo.
#[derive(Debug)]
pub struct UndoResult {
    pub success: bool,
    pub restored_count: usize,
    pub error_message: Option<String>,
}

pub open spec fn msg_empty_id() -> Seq<char> { "operation id must not be empty"@ }
pub open spec fn msg_source_gone() -> Seq<char> { "file does not exist: "@ }
pub open spec fn msg_target_taken() -> Seq<char> { "target file already exists: "@ }
pub open spec fn msg_undo_failed() -> Seq<char> { "undo failed: "@ }

/// Rejects an empty operation id.
pub fn check_operation_id(operation_id: &str) -> (r: Result<(), String>)
    ensures
        r is Ok <==> operation_id@.len() > 0,
        r matches Err(e) ==> e@ == msg_empty_id(),
{
    if operation_id.is_empty() {
        Err(String::from_str("operation id must not be empty"))
    } else {
        Ok(())
    }
}

/// The moves that undo the first `n` records: `new_path -> old_path` for each
/// successful one, in record order.
pub open spec fn restorable(records: Seq<RenameOperationResult>, n: int) -> Entry
    decreases n,
{
    if n <= 0 {
        Seq::empty()
    } else if records[n - 1].success {
        restorable(records, n - 1).push((records[n - 1].new_path@, records[n - 1].old_path@))
    } else {
        restorable(records, n - 1)
    }
}

proof fn lemma_restorable_len(records: Seq<RenameOperationResult>, n: int)
    requires
        n >= 0,
    ensures
        restorable(records, n).len() <= n,
    decreases n,
{
    if n > 0 {
        lemma_restorable_len(records, n - 1);
    }
}

/// An undo in progress over a list of `(from, to)` moves.
pub struct UndoRun {
    moves: Vec<(String, String)>,
    next: usize,
    restored: usize,
    error_message: Option<String>,
}

impl UndoRun {
    #[verifier::type_invariant]
    spec fn counted(&self) -> bool {
        self.restored <= self.next <= self.moves.len()
    }

    /// The moves of the run.
    pub closed spec fn moves_seq(&self) -> Entry {
        self.moves@.map_values(|p: (String, String)| (p.0@, p.1@))
    }

    /// How many moves have been dealt with.
    pub closed spec fn position(&self) -> nat {
        self.next as nat
    }

    /// How many files have been put back.
    pub closed spec fn restored(&self) -> nat {
        self.restored as nat
    }

    /// The most recent problem, if any.
    pub closed spec fn last_error(&self) -> Option<Seq<char>> {
        match self.error_message {
            Some(e) => Some(e@),
            None => None,
        }
    }

    /// Whether every move has been dealt with.
    pub open spec fn done(&self) -> bool {
        self.position() >= self.moves_seq().len()
    }

    /// A run over the given moves.
    pub fn over_moves(moves: Vec<(String, String)>) -> (r: UndoRun)
        ensures
            r.moves_seq() == moves@.map_values(|p: (String, String)| (p.0@, p.1@)),
            r.position() == 0,
            r.restored() == 0,
            r.last_error() is None,
    {
        UndoRun { moves, next: 0, restored: 0, error_message: None }
    }

    /// A run that sends each successful record of a batch back to its old path.
    pub fn for_records(records: &Vec<RenameOperationResult>) -> (r: UndoRun)
        ensures
            r.moves_seq() == restorable(records@, records.len() as int),
            r.position() == 0,
            r.restored() == 0,
            r.last_error() is None,
    {
        let mut moves: Vec<(String, String)> = Vec::new();
        let mut i: usize = 0;
        while i < records.len()
            invariant
                i <= records.len(),
                moves@.map_values(|p: (String, String)| (p.0@, p.1@)) == restorable(records@, i as int),
            decreases records.len() - i,
        {
            if records[i].success {
                moves.push((records[i].new_path.clone(), records[i].old_path.clone()));
            }
            i = i + 1;
            assert(moves@.map_values(|p: (String, String)| (p.0@, p.1@)) =~= restorable(records@, i as int));
        }
        Self::over_moves(moves)
    }

    /// The move to deal with next, as `(from, to)`.
    pub fn current(&self) -> (r: Option<(String, String)>)
        ensures
            match r {
                Some(m) => !self.done() && self.moves_seq()[self.position() as int] == (m.0@, m.1@),
                None => self.done(),
            },
    {
        proof { use_type_invariant(self); }
        if self.next < self.moves.len() {
            Some((self.moves[self.next].0.clone(), self.moves[self.next].1.clone()))
        } else {
            None
        }
    }

    /// Checks the current move against the disk: when its file is gone or its
    /// destination is taken, the move is skipped and reported; otherwise it is
    /// cleared to go (`true`) and stays current until its outcome is recorded.
    pub fn check(&mut self, source_exists: bool, target_exists: bool) -> (go: bool)
        ensures
            final(self).moves_seq() == old(self).moves_seq(),
            final(self).restored() == old(self).restored(),
            go == (!old(self).done() && source_exists && !target_exists),
            go || old(self).done() ==> final(self).position() == old(self).position()
                && final(self).last_error() == old(self).last_error(),
            !old(self).done() && !source_exists ==> final(self).position() == old(self).position() + 1
                && final(self).last_error() == Some(msg_source_gone() + old(self).moves_seq()[old(self).position() as int].0),
            !old(self).done() && source_exists && target_exists ==> final(self).position() == old(self).position() + 1
                && final(self).last_error() == Some(msg_target_taken() + old(self).moves_seq()[old(self).position() as int].1),
    {
        proof { use_type_invariant(&*self); }
        if self.next >= self.moves.len() {
            return false;
        }
        if !source_exists {
            self.error_message = Some(concat_text("file does not exist: ", self.moves[self.next].0.as_str()));
            self.next = self.next + 1;
            return false;
        }
        if target_exists {
            self.error_message = Some(concat_text("target file already exists: ", self.moves[self.next].1.as_str()));
            self.next = self.next + 1;
            return false;
        }
        true
    }

    /// Records whether the current move succeeded.
    pub fn record_rename(&mut self, outcome: Result<(), String>)
        ensures
            final(self).moves_seq() == old(self).moves_seq(),
            old(self).done() ==> final(self).position() == old(self).position()
                && final(self).restored() == old(self).restored()
                && final(self).last_error() == old(self).last_error(),
            !old(self).done() ==> final(self).position() == old(self).position() + 1,
            !old(self).done() && outcome is Ok ==> final(self).restored() == old(self).restored() + 1
                && final(self).last_error() == old(self).last_error(),
            !old(self).done() ==> match outcome {
                Err(e) => final(self).restored() == old(self).restored()
                    && final(self).last_error() == Some(msg_undo_failed() + e@),
                Ok(_) => true,
            },
    {
        proof { use_type_invariant(&*self); }
        if self.next >= self.moves.len() {
            return;
        }
        self.next = self.next + 1;
        match outcome {
            Ok(_) => {
                self.restored = self.restored + 1;
            },
            Err(e) => {
                self.error_message = Some(concat_text("undo failed: ", e.as_str()));
            },
        }
    }

    /// The outcome: a success when at least one file was put back.
    pub fn finish(self) -> (r: UndoResult)
        ensures
            r.restored_count == self.restored(),
            r.success == (self.restored() > 0),
            match r.error_message {
                Some(e) => self.last_error() == Some(e@),
                None => self.last_error() is None,
            },
    {
        UndoResult {
            success: self.restored > 0,
            restored_count: self.restored,
            error_message: self.error_message,
        }
    }
}

} // verus!
