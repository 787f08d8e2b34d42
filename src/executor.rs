//! The two-phase batch rename, as a state machine per operation.
//!
//! Each file is first moved to a temporary name in its own directory, then,
//! once every file of the batch has left its original name, to its target.
//! A failed second move is rolled back to the original path. The machine
//! decides which move each operation owes next; the caller performs it on
//! disk and reports whether it succeeded.

use vstd::prelude::*;
use crate::history::{commit_model, entry_of, Entry, HistoryStore, RenameHistory};
use crate::text::{concat_text, text_is};
use crate::paths::{file_name_of, joined, parent_of, path_file_name, path_join, path_parent};

verus! {

/// One accepted rename: a file and the bare name it is to take in its directory.
#[derive(Debug, Clone)]
pub struct RenameOperation {
    pub old_path: String,
    pub new_name: String,
}

/// What became of one operation.
#[derive(Debug, Clone)]
pub struct RenameOperationResult {
    pub old_path: String,
    pub new_path: String,
    pub success: bool,
    pub error_message: Option<String>,
    /// The second move failed and so did the move back: the file sits under
    /// its temporary name.
    pub rollback_failed: bool,
}

/// What became of a whole batch.
#[derive(Debug)]
pub struct BatchRenameResult {
    pub success_count: usize,
    pub failed_count: usize,
    pub operations: Vec<RenameOperationResult>,
    pub operation_id: String,
}

/// What the disk says of an operation's file before anything is moved.
#[derive(Debug, Clone, Copy)]
pub struct FileProbe {
    pub exists: bool,
    pub is_file: bool,
    pub read_only: bool,
}

/// Where an operation stands.
#[derive(Debug, Clone)]
pub enum OpState {
    /// Nothing moved yet.
    Pending,
    /// Moved to the temporary name.
    Staged,
    /// Moved to the target name.
    Committed,
    /// The first move failed.
    Failed { error: String },
    /// The second move failed; the move back is owed.
    Reverting { error: String },
    /// The second move failed and the file is back at its original path.
    RolledBack { error: String },
    /// The second move failed and so did the move back.
    Stranded { error: String, rollback_error: String },
}

/// Where an operation's file is.
pub enum Location {
    Original,
    Temporary,
    Target,
}

/// The three paths of one operation.
#[derive(Debug, Clone)]
pub struct PlannedRename {
    pub old_path: String,
    pub temp_path: String,
    pub target_path: String,
}

// ---------------------------------------------------------------- preconditions

pub open spec fn msg_missing() -> Seq<char> { "file does not exist: "@ }
pub open spec fn msg_not_file() -> Seq<char> { "path is not a file: "@ }
pub open spec fn msg_read_only() -> Seq<char> { "file is read-only and cannot be renamed: "@ }

/// Why a file may not take part in a batch, if it may not.
pub open spec fn probe_problem(p: FileProbe, path: Seq<char>) -> Option<Seq<char>> {
    if !p.exists {
        Some(msg_missing() + path)
    } else if !p.is_file {
        Some(msg_not_file() + path)
    } else if p.read_only {
        Some(msg_read_only() + path)
    } else {
        None
    }
}

/// Whether the first `n` operations may all take part.
pub open spec fn clear_upto(ops: Seq<RenameOperation>, probes: Seq<FileProbe>, n: int) -> bool {
    forall|k: int| 0 <= k < n ==> (#[trigger] probe_problem(probes[k], ops[k].old_path@)) is None
}

/// Checks every file before anything is moved; the first problem found, in
/// batch order, is the error.
pub fn check_preconditions(operations: &Vec<RenameOperation>, probes: &Vec<FileProbe>) -> (r: Result<(), String>)
    requires
        probes.len() == operations.len(),
    ensures
        r is Ok <==> clear_upto(operations@, probes@, operations.len() as int),
        r matches Err(e) ==> exists|k: int| 0 <= k < operations.len()
            && clear_upto(operations@, probes@, k)
            && #[trigger] probe_problem(probes@[k], operations@[k].old_path@) == Some(e@),
{
    let mut i: usize = 0;
    while i < operations.len()
        invariant
            i <= operations.len() == probes.len(),
            clear_upto(operations@, probes@, i as int),
        decreases operations.len() - i,
    {
        let p = probes[i];
        let path = operations[i].old_path.as_str();
        let problem = if !p.exists {
            Some(concat_text("file does not exist: ", path))
        } else if !p.is_file {
            Some(concat_text("path is not a file: ", path))
        } else if p.read_only {
            Some(concat_text("file is read-only and cannot be renamed: ", path))
        } else {
            None
        };
        if let Some(e) = problem {
            assert(probe_problem(probes@[i as int], operations@[i as int].old_path@) == Some(e@));
            return Err(e);
        }
        i = i + 1;
    }
    Ok(())
}

// ---------------------------------------------------------------- planning

/// The directory of a path, `.` when it has none.
pub open spec fn dir_of(p: Seq<char>) -> Seq<char> {
    match parent_of(p) {
        Some(d) => d,
        None => "."@,
    }
}

/// The temporary name of a file in a batch: unique to the batch through its id.
pub open spec fn temp_name(id: Seq<char>, p: Seq<char>) -> Seq<char> {
    ".__temp_"@ + id + "_"@ + match file_name_of(p) {
        Some(n) => n,
        None => "file"@,
    }
}

/// The paths planned for an operation of batch `id`.
pub open spec fn planned(plan: PlannedRename, op: RenameOperation, id: Seq<char>) -> bool {
    &&& plan.old_path@ == op.old_path@
    &&& plan.temp_path@ == joined(dir_of(op.old_path@), temp_name(id, op.old_path@))
    &&& plan.target_path@ == joined(dir_of(op.old_path@), op.new_name@)
}

/// The temporary and target paths of one operation, both in its own directory.
pub fn plan_rename(op: &RenameOperation, operation_id: &str) -> (r: PlannedRename)
    ensures
        planned(r, *op, operation_id@),
{
    let old = op.old_path.as_str();
    let dir = match path_parent(old) {
        Some(d) => d,
        None => String::from_str("."),
    };
    let file = match path_file_name(old) {
        Some(n) => n,
        None => String::from_str("file"),
    };
    let mut temp = concat_text(".__temp_", operation_id);
    temp.append("_");
    temp.append(file.as_str());
    PlannedRename {
        old_path: op.old_path.clone(),
        temp_path: path_join(dir.as_str(), temp.as_str()),
        target_path: path_join(dir.as_str(), op.new_name.as_str()),
    }
}

/// The hyphenated form of a UUID: 36 characters, `-` at positions 8, 13, 18
/// and 23, lowercase hexadecimal digits everywhere else.
pub open spec fn hyphenated_uuid(s: Seq<char>) -> bool {
    &&& s.len() == 36
    &&& forall|k: int| 0 <= k < 36 ==> {
        let c = #[trigger] s[k];
        if k == 8 || k == 13 || k == 18 || k == 23 {
            c == '-'
        } else {
            ('0' <= c && c <= '9') || ('a' <= c && c <= 'f')
        }
    }
}

/// Relies on `uuid::Builder::from_random_bytes` and the `Display` of `Uuid`:
/// the bytes become a version-4 UUID (version and variant bits set, nothing
/// else changed), written in its lowercase hyphenated form, whose version digit
/// is `4`. Neither call can fail.
#[verifier::external_body]
fn operation_id_from(random_bytes: [u8; 16]) -> (r: String)
    ensures
        hyphenated_uuid(r@),
        r@[14] == '4',
{
    uuid::Builder::from_random_bytes(random_bytes).into_uuid().to_string()
}

// ---------------------------------------------------------------- the machine

/// Where the file of an operation in state `s` is.
pub open spec fn location(s: OpState) -> Location {
    match s {
        OpState::Pending | OpState::Failed { .. } | OpState::RolledBack { .. } => Location::Original,
        OpState::Staged | OpState::Reverting { .. } | OpState::Stranded { .. } => Location::Temporary,
        OpState::Committed => Location::Target,
    }
}

/// Where a successful owed move takes the file.
pub open spec fn destination(s: OpState) -> Location {
    match s {
        OpState::Pending => Location::Temporary,
        OpState::Staged => Location::Target,
        _ => Location::Original,
    }
}

/// Whether an operation owes a move in state `s`.
pub open spec fn owes_move(s: OpState) -> bool {
    s is Pending || s is Staged || s is Reverting
}

/// Whether an operation is finished in state `s`.
pub open spec fn settled_state(s: OpState) -> bool {
    s is Committed || s is Failed || s is RolledBack || s is Stranded
}

/// The state after the owed move of `s` succeeded or failed.
pub open spec fn step(s: OpState, outcome: Result<(), String>) -> OpState {
    match s {
        OpState::Pending => match outcome {
            Ok(_) => OpState::Staged,
            Err(e) => OpState::Failed { error: e },
        },
        OpState::Staged => match outcome {
            Ok(_) => OpState::Committed,
            Err(e) => OpState::Reverting { error: e },
        },
        OpState::Reverting { error } => match outcome {
            Ok(_) => OpState::RolledBack { error },
            Err(e) => OpState::Stranded { error, rollback_error: e },
        },
        _ => s,
    }
}

/// The move owed by an operation, as `(from, to)`: the second move only once
/// no operation of the batch still owes its first.
pub open spec fn owed_move(plan: PlannedRename, s: OpState, first_phase_done: bool) -> Option<(Seq<char>, Seq<char>)> {
    match s {
        OpState::Pending => Some((plan.old_path@, plan.temp_path@)),
        OpState::Staged => if first_phase_done { Some((plan.temp_path@, plan.target_path@)) } else { None },
        OpState::Reverting { .. } => Some((plan.temp_path@, plan.old_path@)),
        _ => None,
    }
}

pub open spec fn msg_phase_one() -> Seq<char> { "rename to the temporary name failed: "@ }
pub open spec fn msg_phase_two() -> Seq<char> { "rename to the target name failed: "@ }
pub open spec fn msg_stranded() -> Seq<char> { "; moving it back failed too, the file is left at "@ }
pub open spec fn msg_taken() -> Seq<char> { "destination already exists: "@ }

/// The error reported for an operation that ended in state `s`.
pub open spec fn failure_message(plan: PlannedRename, s: OpState) -> Option<Seq<char>> {
    match s {
        OpState::Failed { error } => Some(msg_phase_one() + error@),
        OpState::RolledBack { error } => Some(msg_phase_two() + error@),
        OpState::Stranded { error, rollback_error } => Some(
            msg_phase_two() + error@ + msg_stranded() + plan.temp_path@ + ": "@ + rollback_error@,
        ),
        _ => None,
    }
}

/// The result reported for an operation that ended in state `s`.
pub open spec fn reports(r: RenameOperationResult, plan: PlannedRename, s: OpState) -> bool {
    &&& r.old_path@ == plan.old_path@
    &&& r.new_path@ == plan.target_path@
    &&& r.success == s is Committed
    &&& r.rollback_failed == s is Stranded
    &&& match r.error_message {
        Some(m) => failure_message(plan, s) == Some(m@),
        None => failure_message(plan, s) is None,
    }
}

/// How many of the first `n` operations were committed.
pub open spec fn committed_count(states: Seq<OpState>, n: int) -> nat
    decreases n,
{
    if n <= 0 {
        0
    } else if states[n - 1] is Committed {
        committed_count(states, n - 1) + 1
    } else {
        committed_count(states, n - 1)
    }
}

/// The `(old, target)` pairs of the committed operations among the first `n`.
pub open spec fn committed_pairs(plans: Seq<PlannedRename>, states: Seq<OpState>, n: int) -> Entry
    decreases n,
{
    if n <= 0 {
        Seq::empty()
    } else if states[n - 1] is Committed {
        committed_pairs(plans, states, n - 1).push((plans[n - 1].old_path@, plans[n - 1].target_path@))
    } else {
        committed_pairs(plans, states, n - 1)
    }
}

proof fn lemma_committed_count_bound(states: Seq<OpState>, n: int)
    requires
        n >= 0,
    ensures
        committed_count(states, n) <= n,
    decreases n,
{
    if n > 0 {
        lemma_committed_count_bound(states, n - 1);
    }
}

/// An operation's paths and where it stands.
struct TrackedOp {
    plan: PlannedRename,
    state: OpState,
}

/// One batch in progress.
pub struct BatchExecution {
    operation_id: String,
    ops: Vec<TrackedOp>,
}

impl BatchExecution {
    pub closed spec fn id(&self) -> Seq<char> {
        self.operation_id@
    }

    pub closed spec fn plans_seq(&self) -> Seq<PlannedRename> {
        self.ops@.map_values(|t: TrackedOp| t.plan)
    }

    pub closed spec fn states_seq(&self) -> Seq<OpState> {
        self.ops@.map_values(|t: TrackedOp| t.state)
    }

    /// Whether no operation still owes its first move.
    pub open spec fn first_phase_done(&self) -> bool {
        forall|k: int| 0 <= k < self.states_seq().len() ==> !(#[trigger] self.states_seq()[k] is Pending)
    }

    /// Whether every operation is finished.
    pub open spec fn settled(&self) -> bool {
        forall|k: int| 0 <= k < self.states_seq().len() ==> settled_state(#[trigger] self.states_seq()[k])
    }

    /// Checks the batch and plans it under `operation_id`; nothing is moved.
    pub fn begin(
        operations: &Vec<RenameOperation>,
        probes: &Vec<FileProbe>,
        operation_id: String,
    ) -> (r: Result<BatchExecution, String>)
        requires
            probes.len() == operations.len(),
        ensures
            r is Ok <==> clear_upto(operations@, probes@, operations.len() as int),
            r matches Err(e) ==> exists|k: int| 0 <= k < operations.len()
                && clear_upto(operations@, probes@, k)
                && #[trigger] probe_problem(probes@[k], operations@[k].old_path@) == Some(e@),
            r matches Ok(ex) ==> {
                &&& ex.id() == operation_id@
                &&& ex.plans_seq().len() == operations.len()
                &&& forall|k: int| 0 <= k < operations.len()
                    ==> planned(#[trigger] ex.plans_seq()[k], operations@[k], operation_id@)
                &&& forall|k: int| 0 <= k < operations.len() ==> #[trigger] ex.states_seq()[k] is Pending
            },
    {
        check_preconditions(operations, probes)?;
        let mut ops: Vec<TrackedOp> = Vec::new();
        let mut i: usize = 0;
        while i < operations.len()
            invariant
                i <= operations.len(),
                ops.len() == i,
                forall|k: int| 0 <= k < i ==> planned(#[trigger] ops@[k].plan, operations@[k], operation_id@),
                forall|k: int| 0 <= k < i ==> #[trigger] ops@[k].state is Pending,
            decreases operations.len() - i,
        {
            ops.push(TrackedOp { plan: plan_rename(&operations[i], operation_id.as_str()), state: OpState::Pending });
            i = i + 1;
        }
        Ok(BatchExecution { operation_id, ops })
    }

    /// Checks the batch and plans it under the version-4 UUID made of
    /// `random_bytes`, which the caller draws from a random source.
    pub fn start(
        operations: &Vec<RenameOperation>,
        probes: &Vec<FileProbe>,
        random_bytes: [u8; 16],
    ) -> (r: Result<BatchExecution, String>)
        requires
            probes.len() == operations.len(),
        ensures
            r is Ok <==> clear_upto(operations@, probes@, operations.len() as int),
            r matches Err(e) ==> exists|k: int| 0 <= k < operations.len()
                && clear_upto(operations@, probes@, k)
                && #[trigger] probe_problem(probes@[k], operations@[k].old_path@) == Some(e@),
            r matches Ok(ex) ==> {
                &&& hyphenated_uuid(ex.id())
                &&& ex.id()[14] == '4'
                &&& ex.plans_seq().len() == operations.len()
                &&& forall|k: int| 0 <= k < operations.len()
                    ==> planned(#[trigger] ex.plans_seq()[k], operations@[k], ex.id())
                &&& forall|k: int| 0 <= k < operations.len() ==> #[trigger] ex.states_seq()[k] is Pending
            },
    {
        Self::begin(operations, probes, operation_id_from(random_bytes))
    }

    /// The batch's operation id.
    pub fn operation_id(&self) -> (r: String)
        ensures
            r@ == self.id(),
    {
        self.operation_id.clone()
    }

    /// The number of operations.
    pub fn len(&self) -> (r: usize)
        ensures
            r == self.states_seq().len(),
            r == self.plans_seq().len(),
    {
        self.ops.len()
    }

    /// Whether no operation still owes its first move.
    pub fn first_phase_complete(&self) -> (r: bool)
        ensures
            r == self.first_phase_done(),
    {
        let mut i: usize = 0;
        while i < self.ops.len()
            invariant
                i <= self.ops.len(),
                forall|k: int| 0 <= k < i ==> !(#[trigger] self.ops@[k].state is Pending),
            decreases self.ops.len() - i,
        {
            if let OpState::Pending = self.ops[i].state {
                assert(self.states_seq()[i as int] is Pending);
                return false;
            }
            i = i + 1;
        }
        assert forall|k: int| 0 <= k < self.states_seq().len() implies !(#[trigger] self.states_seq()[k] is Pending) by {
            assert(!(self.ops@[k].state is Pending));
        }
        true
    }

    /// Whether every operation is finished.
    pub fn is_settled(&self) -> (r: bool)
        ensures
            r == self.settled(),
    {
        let mut i: usize = 0;
        while i < self.ops.len()
            invariant
                i <= self.ops.len(),
                forall|k: int| 0 <= k < i ==> settled_state(#[trigger] self.ops@[k].state),
            decreases self.ops.len() - i,
        {
            match self.ops[i].state {
                OpState::Pending | OpState::Staged | OpState::Reverting { .. } => {
                    assert(!settled_state(self.states_seq()[i as int]));
                    return false;
                },
                _ => {},
            }
            i = i + 1;
        }
        assert forall|k: int| 0 <= k < self.states_seq().len() implies settled_state(#[trigger] self.states_seq()[k]) by {
            assert(settled_state(self.ops@[k].state));
        }
        true
    }

    /// Records whether the move that operation `i` owed succeeded. An
    /// operation that owes no move is left as it is.
    pub fn record(&mut self, i: usize, outcome: Result<(), String>)
        ensures
            final(self).id() == old(self).id(),
            final(self).plans_seq() == old(self).plans_seq(),
            (i < old(self).states_seq().len() && owed_move(old(self).plans_seq()[i as int],
                old(self).states_seq()[i as int], old(self).first_phase_done()) is Some)
                ==> final(self).states_seq()
                == old(self).states_seq().update(i as int, step(old(self).states_seq()[i as int], outcome)),
            !(i < old(self).states_seq().len() && owed_move(old(self).plans_seq()[i as int],
                old(self).states_seq()[i as int], old(self).first_phase_done()) is Some)
                ==> final(self).states_seq() == old(self).states_seq(),
    {
        if i >= self.ops.len() {
            return;
        }
        let phase_done = self.first_phase_complete();
        let owes = match self.ops[i].state {
            OpState::Pending | OpState::Reverting { .. } => true,
            OpState::Staged => phase_done,
            _ => false,
        };
        if !owes {
            return;
        }
        let TrackedOp { plan, state: current } = self.ops.remove(i);
        let next = match current {
            OpState::Pending => match outcome {
                Ok(_) => OpState::Staged,
                Err(e) => OpState::Failed { error: e },
            },
            OpState::Staged => match outcome {
                Ok(_) => OpState::Committed,
                Err(e) => OpState::Reverting { error: e },
            },
            OpState::Reverting { error } => match outcome {
                Ok(_) => OpState::RolledBack { error },
                Err(e) => OpState::Stranded { error, rollback_error: e },
            },
            other => other,
        };
        self.ops.insert(i, TrackedOp { plan, state: next });
        assert(self.plans_seq() =~= old(self).plans_seq());
        assert(self.states_seq() =~= old(self).states_seq().update(i as int, step(old(self).states_seq()[i as int], outcome)));
    }

    /// Ends a settled batch: one result per operation, in batch order, and the
    /// committed renames recorded as a new history entry when there are any.
    pub fn finish(self, history: &mut HistoryStore) -> (r: BatchRenameResult)
        requires
            self.settled(),
        ensures
            r.operation_id@ == self.id(),
            r.operations.len() == self.states_seq().len(),
            forall|k: int| 0 <= k < r.operations.len()
                ==> reports(#[trigger] r.operations@[k], self.plans_seq()[k], self.states_seq()[k]),
            r.success_count == committed_count(self.states_seq(), self.states_seq().len() as int),
            r.failed_count == self.states_seq().len() - r.success_count,
            r.success_count > 0 ==> (final(history).undo_stack(), final(history).redo_stack()) == commit_model(
                old(history).undo_stack(),
                old(history).redo_stack(),
                committed_pairs(self.plans_seq(), self.states_seq(), self.states_seq().len() as int),
            ),
            r.success_count == 0 ==> final(history).undo_stack() == old(history).undo_stack()
                && final(history).redo_stack() == old(history).redo_stack(),
    {
        let ghost plans = self.plans_seq();
        let ghost states = self.states_seq();
        let n = self.ops.len();
        let mut operations: Vec<RenameOperationResult> = Vec::new();
        let mut pairs: Vec<(String, String)> = Vec::new();
        let mut success: usize = 0;
        let mut k: usize = 0;
        while k < n
            invariant
                n == self.ops.len() == plans.len() == states.len(),
                plans == self.plans_seq(),
                states == self.states_seq(),
                self.settled(),
                k <= n,
                operations.len() == k,
                forall|m: int| 0 <= m < k ==> reports(#[trigger] operations@[m], plans[m], states[m]),
                success == committed_count(states, k as int),
                entry_of(pairs@) == committed_pairs(plans, states, k as int),
            decreases n - k,
        {
            proof { lemma_committed_count_bound(states, k as int); }
            assert(settled_state(states[k as int]));
            let plan = &self.ops[k].plan;
            operations.push(report(plan, &self.ops[k].state));
            if let OpState::Committed = self.ops[k].state {
                pairs.push((plan.old_path.clone(), plan.target_path.clone()));
                success = success + 1;
            }
            k = k + 1;
            assert(entry_of(pairs@) =~= committed_pairs(plans, states, k as int));
        }
        proof { lemma_committed_count_bound(states, n as int); }
        if success > 0 {
            history.commit(RenameHistory { operations: pairs });
        }
        BatchRenameResult {
            success_count: success,
            failed_count: n - success,
            operations,
            operation_id: self.operation_id,
        }
    }

    /// Whether operation `i` owes a move now.
    pub open spec fn owes_now(&self, i: int) -> bool {
        0 <= i < self.states_seq().len()
            && owed_move(self.plans_seq()[i], self.states_seq()[i], self.first_phase_done()) is Some
    }

    /// The destination of the move operation `i` owes now.
    pub open spec fn owed_destination(&self, i: int) -> Seq<char> {
        owed_move(self.plans_seq()[i], self.states_seq()[i], self.first_phase_done())->Some_0.1
    }

    /// Checks the destination of the move operation `i` owes against the disk.
    /// A move is never made onto a path that is already taken: it counts as a
    /// failed move whose error names that path. The result says whether the
    /// move may go ahead.
    pub fn check_destination(&mut self, i: usize, destination_exists: bool) -> (go: bool)
        ensures
            final(self).id() == old(self).id(),
            final(self).plans_seq() == old(self).plans_seq(),
            go == (old(self).owes_now(i as int) && !destination_exists),
            !(old(self).owes_now(i as int) && destination_exists)
                ==> final(self).states_seq() == old(self).states_seq(),
            old(self).owes_now(i as int) && destination_exists ==> exists|e: String|
                e@ == msg_taken() + old(self).owed_destination(i as int)
                && #[trigger] final(self).states_seq()
                == old(self).states_seq().update(i as int, step(old(self).states_seq()[i as int], Err(e))),
    {
        match self.next_move(i) {
            None => false,
            Some((_, to)) => {
                if destination_exists {
                    let e = concat_text("destination already exists: ", to.as_str());
                    let ghost eg = e;
                    self.record(i, Err(e));
                    assert(self.states_seq() == old(self).states_seq().update(
                        i as int,
                        step(old(self).states_seq()[i as int], Err(eg)),
                    ));
                    false
                } else {
                    true
                }
            },
        }
    }

    /// The moves owed now, as `(operation, from, to)`, in batch order, with
    /// pairwise distinct destinations: of several operations that owe a move
    /// to the same path, only the first is listed, and the others are listed
    /// again once it is recorded.
    pub fn owed_moves(&self) -> (r: Vec<(usize, String, String)>)
        ensures
            forall|k: int| 0 <= k < r.len() ==> {
                let m = #[trigger] r@[k];
                &&& self.owes_now(m.0 as int)
                &&& owed_move(self.plans_seq()[m.0 as int], self.states_seq()[m.0 as int],
                    self.first_phase_done()) == Some((m.1@, m.2@))
            },
            forall|k1: int, k2: int| 0 <= k1 < k2 < r.len() ==> r@[k1].0 < r@[k2].0 && r@[k1].2@ != r@[k2].2@,
            forall|i: int| #[trigger] self.owes_now(i) ==> exists|k: int| 0 <= k < r.len()
                && (r@[k].0 == i || r@[k].2@ == self.owed_destination(i)),
    {
        let mut r: Vec<(usize, String, String)> = Vec::new();
        let n = self.len();
        let mut i: usize = 0;
        while i < n
            invariant
                n == self.states_seq().len() == self.plans_seq().len(),
                i <= n,
                forall|k: int| 0 <= k < r.len() ==> {
                    let m = #[trigger] r@[k];
                    &&& self.owes_now(m.0 as int)
                    &&& m.0 < i
                    &&& owed_move(self.plans_seq()[m.0 as int], self.states_seq()[m.0 as int],
                        self.first_phase_done()) == Some((m.1@, m.2@))
                },
                forall|k1: int, k2: int| 0 <= k1 < k2 < r.len() ==> r@[k1].0 < r@[k2].0 && r@[k1].2@ != r@[k2].2@,
                forall|j: int| 0 <= j < i && #[trigger] self.owes_now(j) ==> exists|k: int| 0 <= k < r.len()
                    && (r@[k].0 == j || r@[k].2@ == self.owed_destination(j)),
            decreases n - i,
        {
            if let Some((from, to)) = self.next_move(i) {
                let mut taken = false;
                let mut k: usize = 0;
                while k < r.len()
                    invariant
                        k <= r.len(),
                        !taken ==> forall|m: int| 0 <= m < k ==> r@[m].2@ != to@,
                        taken ==> exists|m: int| 0 <= m < r.len() && r@[m].2@ == to@,
                    decreases r.len() - k,
                {
                    if text_is(r[k].2.as_str(), to.as_str()) {
                        taken = true;
                    }
                    k = k + 1;
                }
                if !taken {
                    let ghost before = r@;
                    r.push((i, from, to));
                    assert forall|j: int| 0 <= j < i + 1 && #[trigger] self.owes_now(j) implies exists|k: int|
                        0 <= k < r.len() && (r@[k].0 == j || r@[k].2@ == self.owed_destination(j)) by {
                        if j < i {
                            let k0 = choose|k: int| 0 <= k < before.len()
                                && (before[k].0 == j || before[k].2@ == self.owed_destination(j));
                            assert(r@[k0] == before[k0]);
                        } else {
                            assert(r@[before.len() as int].0 == j);
                        }
                    }
                }
            }
            i = i + 1;
        }
        r
    }

    /// The move operation `i` owes now, as `(from, to)`.
    pub fn next_move(&self, i: usize) -> (r: Option<(String, String)>)
        ensures
            match r {
                Some(m) => i < self.states_seq().len() && owed_move(self.plans_seq()[i as int],
                    self.states_seq()[i as int], self.first_phase_done()) == Some((m.0@, m.1@)),
                None => i >= self.states_seq().len() || owed_move(self.plans_seq()[i as int],
                    self.states_seq()[i as int], self.first_phase_done()) is None,
            },
    {
        if i >= self.ops.len() {
            return None;
        }
        let plan = &self.ops[i].plan;
        match self.ops[i].state {
            OpState::Pending => Some((plan.old_path.clone(), plan.temp_path.clone())),
            OpState::Staged => {
                if self.first_phase_complete() {
                    Some((plan.temp_path.clone(), plan.target_path.clone()))
                } else {
                    None
                }
            },
            OpState::Reverting { .. } => Some((plan.temp_path.clone(), plan.old_path.clone())),
            _ => None,
        }
    }
}

/// The result reported for one settled operation.
fn report(plan: &PlannedRename, state: &OpState) -> (r: RenameOperationResult)
    requires
        settled_state(*state),
    ensures
        reports(r, *plan, *state),
{
    let error_message = match state {
        OpState::Failed { error } => Some(concat_text("rename to the temporary name failed: ", error.as_str())),
        OpState::RolledBack { error } => Some(concat_text("rename to the target name failed: ", error.as_str())),
        OpState::Stranded { error, rollback_error } => {
            let mut m = concat_text("rename to the target name failed: ", error.as_str());
            m.append("; moving it back failed too, the file is left at ");
            m.append(plan.temp_path.as_str());
            m.append(": ");
            m.append(rollback_error.as_str());
            Some(m)
        },
        _ => None,
    };
    let success = match state {
        OpState::Committed => true,
        _ => false,
    };
    let rollback_failed = match state {
        OpState::Stranded { .. } => true,
        _ => false,
    };
    RenameOperationResult {
        old_path: plan.old_path.clone(),
        new_path: plan.target_path.clone(),
        success,
        error_message,
        rollback_failed,
    }
}

// ---------------------------------------------------------------- laws

/// A failed move leaves the file where it was; a successful one takes it
/// where the owed move leads. In particular a failed first move leaves the
/// file at its original path, with no temporary name in play.
pub proof fn lemma_step_location(s: OpState, outcome: Result<(), String>)
    requires
        owes_move(s),
    ensures
        outcome is Err ==> location(step(s, outcome)) == location(s),
        outcome is Ok ==> location(step(s, outcome)) == destination(s),
        (s is Pending && outcome is Err) ==> location(step(s, outcome)) == Location::Original,
        settled_state(step(s, outcome)) || owes_move(step(s, outcome)),
{
}

/// No file is silently lost: an operation reported as a success has its file
/// at the target; one reported as a failure has its file back at its original
/// path, or is flagged as a failed rollback with its file at the temporary path.
pub proof fn lemma_no_file_lost(r: RenameOperationResult, plan: PlannedRename, s: OpState)
    requires
        settled_state(s),
        reports(r, plan, s),
    ensures
        r.success ==> location(s) == Location::Target,
        !r.success ==> location(s) == Location::Original
            || (location(s) == Location::Temporary && r.rollback_failed),
        s is Failed ==> location(s) == Location::Original && !r.rollback_failed,
{
}

/// A batch in which no operation owes a move is settled, so running the owed
/// moves until none is left ends every operation.
pub proof fn lemma_nothing_owed_is_settled(ex: BatchExecution)
    requires
        forall|i: int| !#[trigger] ex.owes_now(i),
    ensures
        ex.settled(),
{
    assert forall|k: int| 0 <= k < ex.states_seq().len() implies !(#[trigger] ex.states_seq()[k] is Pending) by {
        assert(!ex.owes_now(k));
    }
    assert forall|k: int| 0 <= k < ex.states_seq().len() implies settled_state(#[trigger] ex.states_seq()[k]) by {
        assert(!ex.owes_now(k));
    }
}

} // verus!
