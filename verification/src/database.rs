//! Records as the durable store keeps them, and what the hub relies on from
//! that store: it numbers the records it is given in rising order, and it
//! hands the newest ones back, newest first.

use vstd::prelude::*;
use crate::circuit_data::{Circuit_Data, Snapshot};

verus! {

/// How many seconds pass between two copies to the store unless told
/// otherwise.
pub const DEFAULT_INSERTION_DELAY: u8 = 5;

/// A stored copy of a snapshot, under the number that the store gave it.
#[derive(Debug)]
pub struct Record {
    pub id: i64,
    pub data: Circuit_Data,
}

/// A `Record` as a value.
pub struct RecordView {
    pub id: int,
    pub data: Snapshot,
}

impl View for Record {
    type V = RecordView;

    open spec fn view(&self) -> RecordView {
        RecordView { id: self.id as int, data: self.data@ }
    }
}

/// The records that the elements of `records` hold.
pub open spec fn record_views(records: Seq<Record>) -> Seq<RecordView> {
    Seq::new(records.len(), |i: int| records[i]@)
}

/// The store's records in the order in which they were appended: each has a
/// greater number than every record before it.
pub open spec fn is_log(log: Seq<RecordView>) -> bool {
    forall|i: int, j: int| 0 <= i < j < log.len() ==> log[i].id < log[j].id
}

/// The log after `data` has been appended under the number `id`.
pub open spec fn appended(log: Seq<RecordView>, id: int, data: Snapshot) -> Seq<RecordView> {
    log.push(RecordView { id, data })
}

/// The `n` newest records of the log, newest first; all of them where the log
/// holds fewer.
pub open spec fn recent(log: Seq<RecordView>, n: nat) -> Seq<RecordView> {
    let count = if n <= log.len() {
        n
    } else {
        log.len()
    };
    Seq::new(count, |i: int| log[log.len() - 1 - i])
}

/// The records come newest first: each has a smaller number than every record
/// before it.
pub open spec fn newest_first(records: Seq<RecordView>) -> bool {
    forall|i: int, j: int| 0 <= i < j < records.len() ==> records[i].id > records[j].id
}

/// What is fetched from a log comes newest first, and starts with the record
/// that was appended last.
pub proof fn lemma_recent_newest_first(log: Seq<RecordView>, n: nat)
    requires
        is_log(log),
    ensures
        newest_first(recent(log, n)),
        n >= 1 && log.len() >= 1 ==> recent(log, n).len() >= 1 && recent(log, n)[0] == log.last(),
        recent(log, n).len() <= n,
{
}

/// A log stays a log when a record is appended under a number greater than
/// every number in it.
pub proof fn lemma_appended_is_log(log: Seq<RecordView>, id: int, data: Snapshot)
    requires
        is_log(log),
        forall|i: int| 0 <= i < log.len() ==> log[i].id < id,
    ensures
        is_log(appended(log, id, data)),
{
}

} // verus!
