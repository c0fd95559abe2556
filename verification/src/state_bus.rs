//! The one place where the current snapshot is kept. Whoever reads gets a
//! copy of its own; whoever writes replaces the whole snapshot. Nothing is
//! queued and nothing is kept of what was there before.

use vstd::prelude::*;
use crate::circuit_data::{initial_snapshot, stamped, Circuit_Data, Snapshot};
use crate::clock::local_timestamp;

verus! {

/// What the bus holds once `snapshot` has been set, whatever it held before.
pub open spec fn after_set(before: Snapshot, snapshot: Snapshot) -> Snapshot {
    snapshot
}

/// What a reader gets from a bus that holds `held`.
pub open spec fn read(held: Snapshot) -> Snapshot {
    held
}

/// One use of the bus. The lock lets one use happen at a time, so whatever
/// the threads do comes down to some sequence of uses.
pub enum BusOp {
    Write(Snapshot),
    Read,
}

/// What the bus holds after the uses `ops`, in order.
pub open spec fn after_ops(before: Snapshot, ops: Seq<BusOp>) -> Snapshot
    decreases ops.len(),
{
    if ops.len() == 0 {
        before
    } else {
        let held = after_ops(before, ops.drop_last());
        match ops.last() {
            BusOp::Write(snapshot) => after_set(held, snapshot),
            BusOp::Read => held,
        }
    }
}

/// What the reader at place `i` among the uses `ops` gets.
pub open spec fn answer(before: Snapshot, ops: Seq<BusOp>, i: int) -> Snapshot {
    read(after_ops(before, ops.take(i)))
}

/// The holder of the current snapshot.
#[derive(Debug)]
pub struct StateBus {
    snapshot: Circuit_Data,
}

impl View for StateBus {
    type V = Snapshot;

    closed spec fn view(&self) -> Snapshot {
        self.snapshot@
    }
}

impl StateBus {
    /// A bus that holds the snapshot of a hub that has not received anything.
    pub fn new() -> (bus: StateBus)
        ensures
            bus@ == initial_snapshot(),
    {
        StateBus { snapshot: Circuit_Data::initial() }
    }

    /// A copy of the current snapshot.
    pub fn get(&self) -> (copy: Circuit_Data)
        ensures
            copy@ == read(self@),
    {
        self.snapshot.clone()
    }

    /// Replaces the current snapshot.
    pub fn set(&mut self, snapshot: Circuit_Data)
        ensures
            final(self)@ == after_set(old(self)@, snapshot@),
    {
        self.snapshot = snapshot;
    }

    /// A copy of the current snapshot to be stored at `now`: the snapshot with
    /// `now` as its insertion time. There is one for every call, whether or
    /// not the snapshot has changed since the last one.
    pub fn copy_for_storage_at(&self, now: String) -> (copy: Circuit_Data)
        ensures
            copy@ == stamped(read(self@), now@),
    {
        self.snapshot.stamped_copy(now)
    }

    /// A copy of the current snapshot to be stored now: the snapshot with the
    /// local time as its insertion time.
    pub fn copy_for_storage(&self) -> (copy: Circuit_Data)
        ensures
            exists|now: Seq<char>| copy@ == stamped(read(self@), now),
    {
        let now = local_timestamp();
        self.copy_for_storage_at(now)
    }
}

/// A reader that comes right after a writer gets what the writer set, equal in
/// every field.
pub proof fn lemma_get_after_set(before: Snapshot, snapshot: Snapshot)
    ensures
        read(after_set(before, snapshot)) == snapshot,
{
}

/// Of two writers the later one wins.
pub proof fn lemma_latest_wins(before: Snapshot, first: Snapshot, second: Snapshot)
    ensures
        read(after_set(after_set(before, first), second)) == second,
{
}

/// However readers and writers take turns, a reader gets one snapshot whole:
/// the one that the last writer before it set, or the one from before if no
/// writer came before it. It never gets a mixture of two.
pub proof fn lemma_read_is_whole(before: Snapshot, ops: Seq<BusOp>, i: int)
    requires
        0 <= i < ops.len(),
        ops[i] is Read,
    ensures
        answer(before, ops, i) == before || exists|j: int|
            0 <= j < i && #[trigger] ops[j] == BusOp::Write(answer(before, ops, i)),
        forall|j: int|
            0 <= j < i && ops[j] is Write && (forall|k: int| j < k < i ==> ops[k] is Read)
                ==> #[trigger] ops[j] == BusOp::Write(answer(before, ops, i)),
{
    lemma_after_ops(before, ops.take(i));
    let seen = ops.take(i);
    assert forall|j: int|
        0 <= j < i && ops[j] is Write && (forall|k: int| j < k < i ==> ops[k] is Read)
        implies #[trigger] ops[j] == BusOp::Write(answer(before, ops, i)) by {
        assert(seen[j] == ops[j]);
        assert forall|k: int| j < k < seen.len() implies seen[k] is Read by {
            assert(seen[k] == ops[k]);
        }
    }
    if answer(before, ops, i) != before {
        let j = choose|j: int| 0 <= j < seen.len() && #[trigger] seen[j] == BusOp::Write(
            after_ops(before, seen),
        );
        assert(ops[j] == seen[j]);
    }
}

/// What the bus holds after some uses is what it held before them or what one
/// of them set, and it is what the last writer among them set.
proof fn lemma_after_ops(before: Snapshot, ops: Seq<BusOp>)
    ensures
        after_ops(before, ops) == before || exists|j: int|
            0 <= j < ops.len() && #[trigger] ops[j] == BusOp::Write(after_ops(before, ops)),
        forall|j: int|
            0 <= j < ops.len() && ops[j] is Write && (forall|k: int|
                j < k < ops.len() ==> ops[k] is Read) ==> #[trigger] ops[j] == BusOp::Write(
                after_ops(before, ops),
            ),
    decreases ops.len(),
{
    if ops.len() > 0 {
        let front = ops.drop_last();
        lemma_after_ops(before, front);
        let held = after_ops(before, front);
        match ops.last() {
            BusOp::Write(snapshot) => {
                assert(ops[ops.len() - 1] == BusOp::Write(after_ops(before, ops)));
                assert forall|j: int|
                    0 <= j < ops.len() && ops[j] is Write && (forall|k: int|
                        j < k < ops.len() ==> ops[k] is Read) implies #[trigger] ops[j]
                    == BusOp::Write(after_ops(before, ops)) by {
                    if j < ops.len() - 1 {
                        assert(ops[ops.len() - 1] is Read);
                    }
                }
            },
            BusOp::Read => {
                if held != before {
                    let j = choose|j: int|
                        0 <= j < front.len() && #[trigger] front[j] == BusOp::Write(held);
                    assert(ops[j] == front[j]);
                }
                assert forall|j: int|
                    0 <= j < ops.len() && ops[j] is Write && (forall|k: int|
                        j < k < ops.len() ==> ops[k] is Read) implies #[trigger] ops[j]
                    == BusOp::Write(after_ops(before, ops)) by {
                    assert(j < front.len());
                    assert(front[j] == ops[j]);
                    assert forall|k: int| j < k < front.len() implies front[k] is Read by {
                        assert(front[k] == ops[k]);
                    }
                }
            },
        }
    }
}

} // verus!
