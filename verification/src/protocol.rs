use crate::durability::DurabilityLevel;
use crate::error::StorageError;
use crate::key::KeyRange;
use crate::table::{listing_map, within, Record, Records};
use vstd::prelude::*;

verus! {

/// One piece of native work that a backend adapter carries out.
#[derive(Debug, PartialEq, Eq)]
pub enum Request {
    /// Look up the value of `key`.
    Read { key: Vec<u8> },
    /// Store `value` under `key`, in place of the value that the key had.
    Write { key: Vec<u8>, value: Vec<u8> },
    /// Remove the record of `key`, if there is one.
    Remove { key: Vec<u8> },
    /// List the records whose keys lie in `range`, in any order.
    List { range: KeyRange },
    /// Hand all buffered writes to the engine's persistence layer.
    Flush,
    /// Wait until every earlier write is recoverable after a crash.
    Sync,
    /// Release every resource of the engine.
    Release,
}

/// What an adapter answers to a request.
#[derive(Debug, PartialEq, Eq)]
pub enum Reply {
    /// The value that was read, or its absence.
    Value(Option<Vec<u8>>),
    /// The records that were listed.
    Records(Vec<Record>),
    /// The work was carried out and there is nothing to hand back.
    Done,
    /// The engine could not carry out the work.
    Failed,
}

/// How far an operation has come: what the reply that is awaited answers.
#[derive(Debug, PartialEq, Eq)]
pub enum Stage {
    /// The read of a `get`.
    Reading,
    /// The write of a `put` with the given durability.
    Writing(DurabilityLevel),
    /// The removal of a `delete`.
    Removing,
    /// The listing of a `scan` over the given range.
    Listing(KeyRange),
    /// The flush of a `flush`, or of a `put` at `Flushed` level.
    Flushing,
    /// The sync of a `sync`, or of a `put` at `Synced` level.
    Syncing,
    /// The flush that precedes the release of a `close`.
    Closing,
    /// The release of a `close`, after a last flush that failed or did not.
    Releasing { flush_failed: bool },
}

/// What an operation hands back when it succeeds.
#[derive(Debug, PartialEq, Eq)]
pub enum Completion {
    /// The value of a `get`, or its absence.
    Value(Option<Vec<u8>>),
    /// The records of a `scan`, in ascending byte order of their keys.
    Records(Vec<Record>),
    /// A `put`, `delete`, `flush` or `sync` has taken place.
    Done,
    /// The handle is closed. `flush_failed` warns that the last flush did
    /// not complete.
    Closed { flush_failed: bool },
}

/// What has to happen next with an operation.
#[derive(Debug, PartialEq, Eq)]
pub enum Action {
    /// The adapter carries out `request`; its reply goes to the handle
    /// together with `stage`.
    Perform { request: Request, stage: Stage },
    /// The operation is over with this result.
    Return(Result<Completion, StorageError>),
}

/// The records of a backend after it carried out `request` on `records`.
pub open spec fn effect(records: Records, request: Request) -> Records {
    match request {
        Request::Write { key, value } => records.insert(key@, value@),
        Request::Remove { key } => records.remove(key@),
        _ => records,
    }
}

/// Whether `reply` is what a backend that holds `records` answers to
/// `request` when nothing fails.
///
/// A listing may come in any order and may hold more than was asked for:
/// only its entries in the range count, and of two entries with one key
/// the later.
pub open spec fn faithful(records: Records, request: Request, reply: Reply) -> bool {
    match request {
        Request::Read { key } => match reply {
            Reply::Value(Some(value)) => records.contains_key(key@) && records[key@] == value@,
            Reply::Value(None) => !records.contains_key(key@),
            _ => false,
        },
        Request::List { range } => match reply {
            Reply::Records(list) => within(listing_map(list@), range@) == within(records, range@),
            _ => false,
        },
        _ => reply == Reply::Done,
    }
}

/// A request together with the reply that the adapter gave to it.
pub struct Exchange {
    pub request: Request,
    pub reply: Reply,
}

/// Whether every reply of `trace` is what a backend answers that holds
/// `records` at first, carries out each request in turn and never fails.
pub open spec fn honest(records: Records, trace: Seq<Exchange>) -> bool
    decreases trace.len(),
{
    trace.len() == 0 || {
        &&& faithful(records, trace[0].request, trace[0].reply)
        &&& honest(effect(records, trace[0].request), trace.drop_first())
    }
}

/// The records of a backend that held `records` and carried out the
/// requests of `trace` in turn.
pub open spec fn outcome(records: Records, trace: Seq<Exchange>) -> Records
    decreases trace.len(),
{
    if trace.len() == 0 {
        records
    } else {
        outcome(effect(records, trace[0].request), trace.drop_first())
    }
}

} // verus!
