use crate::durability::DurabilityLevel;
use crate::error::StorageError;
use crate::handle::{
    close_action, delete_action, flush_action, get_action, put_action, runs, scan_begins, sync_action, HandleState,
};
use crate::key::{in_bounds, key_lt, lemma_key_lt_irreflexive, lemma_void_holds_nothing, void, KeyRange};
use crate::protocol::{honest, outcome, Action, Completion, Exchange, Reply, Request};
use crate::table::{ascending, listing_map, within, Record, Records};
use vstd::prelude::*;

verus! {

/// Whether `result` is a found value with the bytes `value`.
pub open spec fn found(result: Result<Completion, StorageError>, value: Seq<u8>) -> bool {
    match result {
        Ok(Completion::Value(Some(bytes))) => bytes@ == value,
        _ => false,
    }
}

/// What a `put` does that is answered honestly: it succeeds, the backend
/// holds the value under the key, the handle stays open, and the write has
/// reached the level that was asked for.
pub proof fn lemma_put_runs(
    h: HandleState,
    records: Records,
    key: Vec<u8>,
    value: Vec<u8>,
    durability: DurabilityLevel,
    trace: Seq<Exchange>,
    end: HandleState,
    result: Result<Completion, StorageError>,
)
    requires
        h.open,
        !h.read_only,
        key@.len() > 0,
        runs(h, put_action(h, key, value, durability), trace, end, result),
        honest(records, trace),
    ensures
        result == Ok::<Completion, StorageError>(Completion::Done),
        outcome(records, trace) == records.insert(key@, value@),
        end == (HandleState { reached: durability, ..h }),
{
    reveal_with_fuel(runs, 3);
    reveal_with_fuel(honest, 3);
    reveal_with_fuel(outcome, 3);
}

/// What a `get` does that is answered honestly: it hands back the value
/// that the backend holds under the key, or its absence, and changes
/// neither the handle nor the records.
pub proof fn lemma_get_runs(
    h: HandleState,
    records: Records,
    key: Vec<u8>,
    trace: Seq<Exchange>,
    end: HandleState,
    result: Result<Completion, StorageError>,
)
    requires
        h.open,
        key@.len() > 0,
        runs(h, get_action(h, key), trace, end, result),
        honest(records, trace),
    ensures
        records.contains_key(key@) ==> found(result, records[key@]),
        !records.contains_key(key@) ==> result == Ok::<Completion, StorageError>(Completion::Value(None)),
        outcome(records, trace) == records,
        end == h,
{
    reveal_with_fuel(runs, 3);
    reveal_with_fuel(honest, 3);
    reveal_with_fuel(outcome, 3);
}

/// What a `delete` does that is answered honestly: it succeeds, whether or
/// not the key had a record, and the backend holds no record of the key.
pub proof fn lemma_delete_runs(
    h: HandleState,
    records: Records,
    key: Vec<u8>,
    trace: Seq<Exchange>,
    end: HandleState,
    result: Result<Completion, StorageError>,
)
    requires
        h.open,
        !h.read_only,
        key@.len() > 0,
        runs(h, delete_action(h, key), trace, end, result),
        honest(records, trace),
    ensures
        result == Ok::<Completion, StorageError>(Completion::Done),
        outcome(records, trace) == records.remove(key@),
        end == (HandleState { reached: DurabilityLevel::Buffered, ..h }),
{
    reveal_with_fuel(runs, 3);
    reveal_with_fuel(honest, 3);
    reveal_with_fuel(outcome, 3);
}

/// What a `flush` and a `sync` do that are answered honestly: they
/// succeed, change no record, and raise the level that the writes have
/// reached, a flush to `Flushed` at least and a sync to `Synced`.
pub proof fn lemma_flush_sync_run(
    h: HandleState,
    records: Records,
    sync: bool,
    trace: Seq<Exchange>,
    end: HandleState,
    result: Result<Completion, StorageError>,
)
    requires
        h.open,
        runs(h, if sync { sync_action(h) } else { flush_action(h) }, trace, end, result),
        honest(records, trace),
    ensures
        result == Ok::<Completion, StorageError>(Completion::Done),
        outcome(records, trace) == records,
        end == (HandleState {
            reached: if sync {
                DurabilityLevel::Synced
            } else if h.reached == DurabilityLevel::Buffered {
                DurabilityLevel::Flushed
            } else {
                h.reached
            },
            ..h
        }),
{
    reveal_with_fuel(runs, 3);
    reveal_with_fuel(honest, 3);
    reveal_with_fuel(outcome, 3);
}

/// What a `close` does that is answered honestly: the handle is closed,
/// no warning is raised, and the records are what they were.
pub proof fn lemma_close_runs(
    h: HandleState,
    records: Records,
    trace: Seq<Exchange>,
    end: HandleState,
    result: Result<Completion, StorageError>,
)
    requires
        runs(h, close_action(h), trace, end, result),
        honest(records, trace),
    ensures
        result == Ok::<Completion, StorageError>(Completion::Closed { flush_failed: false }),
        outcome(records, trace) == records,
        !end.open,
{
    reveal_with_fuel(runs, 4);
    reveal_with_fuel(honest, 4);
    reveal_with_fuel(outcome, 4);
}

/// A value that was put is the value that a following `get` of the key
/// hands back, at every durability level.
pub proof fn law_put_then_get(
    h: HandleState,
    records: Records,
    key: Vec<u8>,
    value: Vec<u8>,
    durability: DurabilityLevel,
    put_trace: Seq<Exchange>,
    mid: HandleState,
    put_result: Result<Completion, StorageError>,
    get_trace: Seq<Exchange>,
    end: HandleState,
    get_result: Result<Completion, StorageError>,
)
    requires
        h.open,
        !h.read_only,
        key@.len() > 0,
        runs(h, put_action(h, key, value, durability), put_trace, mid, put_result),
        honest(records, put_trace),
        runs(mid, get_action(mid, key), get_trace, end, get_result),
        honest(outcome(records, put_trace), get_trace),
    ensures
        put_result == Ok::<Completion, StorageError>(Completion::Done),
        found(get_result, value@),
{
    lemma_put_runs(h, records, key, value, durability, put_trace, mid, put_result);
    lemma_get_runs(mid, outcome(records, put_trace), key, get_trace, end, get_result);
}

/// After a `delete` a `get` of the key finds nothing, and a second
/// `delete` of the key succeeds as the first did.
pub proof fn law_delete_then_get(
    h: HandleState,
    records: Records,
    key: Vec<u8>,
    first_trace: Seq<Exchange>,
    mid: HandleState,
    first_result: Result<Completion, StorageError>,
    get_trace: Seq<Exchange>,
    get_end: HandleState,
    get_result: Result<Completion, StorageError>,
    second_trace: Seq<Exchange>,
    end: HandleState,
    second_result: Result<Completion, StorageError>,
)
    requires
        h.open,
        !h.read_only,
        key@.len() > 0,
        runs(h, delete_action(h, key), first_trace, mid, first_result),
        honest(records, first_trace),
        runs(mid, get_action(mid, key), get_trace, get_end, get_result),
        honest(outcome(records, first_trace), get_trace),
        runs(get_end, delete_action(get_end, key), second_trace, end, second_result),
        honest(outcome(outcome(records, first_trace), get_trace), second_trace),
    ensures
        first_result == Ok::<Completion, StorageError>(Completion::Done),
        get_result == Ok::<Completion, StorageError>(Completion::Value(None)),
        second_result == Ok::<Completion, StorageError>(Completion::Done),
        outcome(outcome(outcome(records, first_trace), get_trace), second_trace) == records.remove(key@),
{
    lemma_delete_runs(h, records, key, first_trace, mid, first_result);
    let removed = outcome(records, first_trace);
    lemma_get_runs(mid, removed, key, get_trace, get_end, get_result);
    lemma_delete_runs(get_end, removed, key, second_trace, end, second_result);
    assert(removed.remove(key@) =~= removed);
}

/// A value that was put at `Synced` level and the handle then closed is
/// found again through any handle that is opened afterwards on what the
/// backend holds: closing changes no record.
pub proof fn law_put_close_reopen_get(
    h: HandleState,
    records: Records,
    key: Vec<u8>,
    value: Vec<u8>,
    put_trace: Seq<Exchange>,
    mid: HandleState,
    put_result: Result<Completion, StorageError>,
    close_trace: Seq<Exchange>,
    closed: HandleState,
    close_result: Result<Completion, StorageError>,
    reopened: HandleState,
    get_trace: Seq<Exchange>,
    end: HandleState,
    get_result: Result<Completion, StorageError>,
)
    requires
        h.open,
        !h.read_only,
        key@.len() > 0,
        runs(h, put_action(h, key, value, DurabilityLevel::Synced), put_trace, mid, put_result),
        honest(records, put_trace),
        runs(mid, close_action(mid), close_trace, closed, close_result),
        honest(outcome(records, put_trace), close_trace),
        reopened.open,
        runs(reopened, get_action(reopened, key), get_trace, end, get_result),
        honest(outcome(outcome(records, put_trace), close_trace), get_trace),
    ensures
        put_result == Ok::<Completion, StorageError>(Completion::Done),
        mid.reached == DurabilityLevel::Synced,
        close_result == Ok::<Completion, StorageError>(Completion::Closed { flush_failed: false }),
        !closed.open,
        found(get_result, value@),
{
    lemma_put_runs(h, records, key, value, DurabilityLevel::Synced, put_trace, mid, put_result);
    let stored = outcome(records, put_trace);
    lemma_close_runs(mid, stored, close_trace, closed, close_result);
    lemma_get_runs(reopened, stored, key, get_trace, end, get_result);
}

/// A `put` at `Synced` level succeeds only after the backend has confirmed
/// a sync that followed the write, whatever the adapter answers.
pub proof fn law_synced_put_waits_for_sync(
    h: HandleState,
    key: Vec<u8>,
    value: Vec<u8>,
    trace: Seq<Exchange>,
    end: HandleState,
    result: Result<Completion, StorageError>,
)
    requires
        runs(h, put_action(h, key, value, DurabilityLevel::Synced), trace, end, result),
        result is Ok,
    ensures
        trace.len() == 2,
        trace[0] == (Exchange { request: Request::Write { key, value }, reply: Reply::Done }),
        trace[1] == (Exchange { request: Request::Sync, reply: Reply::Done }),
        end.reached == DurabilityLevel::Synced,
{
    reveal_with_fuel(runs, 4);
}

/// A flush or a sync that the backend could not complete is reported as a
/// `DurabilityFailure`: a `put` never succeeds at a lower level than was
/// asked for.
pub proof fn law_durability_never_downgraded(
    h: HandleState,
    key: Vec<u8>,
    value: Vec<u8>,
    durability: DurabilityLevel,
    trace: Seq<Exchange>,
    end: HandleState,
    result: Result<Completion, StorageError>,
)
    requires
        runs(h, put_action(h, key, value, durability), trace, end, result),
        result is Ok,
    ensures
        end.reached.rank() >= durability.rank(),
{
    reveal_with_fuel(runs, 4);
}

/// Closing never fails, whatever the adapter answers: the handle ends
/// closed, and the only thing reported is whether a last flush was asked
/// for and did not complete. A last flush is asked for exactly if a write
/// is still buffered, and it comes before the release.
pub proof fn law_close_always_closes(
    h: HandleState,
    trace: Seq<Exchange>,
    end: HandleState,
    result: Result<Completion, StorageError>,
)
    requires
        runs(h, close_action(h), trace, end, result),
    ensures
        !end.open,
        !h.open ==> trace.len() == 0 && result == Ok::<Completion, StorageError>(
            Completion::Closed { flush_failed: false },
        ),
        h.open && h.reached != DurabilityLevel::Buffered ==> {
            &&& trace.len() == 1
            &&& trace[0].request == Request::Release
            &&& result == Ok::<Completion, StorageError>(Completion::Closed { flush_failed: false })
        },
        h.open && h.reached == DurabilityLevel::Buffered ==> {
            &&& trace.len() == 2
            &&& trace[0].request == Request::Flush
            &&& trace[1].request == Request::Release
            &&& result == Ok::<Completion, StorageError>(
                Completion::Closed { flush_failed: trace[0].reply != Reply::Done },
            )
        },
{
    reveal_with_fuel(runs, 4);
}

/// Nothing is synced or flushed behind the caller's back: a `get`, a
/// `delete` and a `put` at `Buffered` level make one request each, the
/// read, the removal or the write itself.
pub proof fn law_no_hidden_sync(
    h: HandleState,
    key: Vec<u8>,
    value: Vec<u8>,
    action: Action,
    trace: Seq<Exchange>,
    end: HandleState,
    result: Result<Completion, StorageError>,
)
    requires
        action == get_action(h, key) || action == delete_action(h, key) || action == put_action(
            h,
            key,
            value,
            DurabilityLevel::Buffered,
        ),
        runs(h, action, trace, end, result),
    ensures
        trace.len() <= 1,
        forall|i: int| 0 <= i < trace.len() ==> (#[trigger] trace[i]).request != Request::Sync && trace[i].request != Request::Flush,
{
    reveal_with_fuel(runs, 3);
}

/// An empty key is refused with `InvalidKey` by every open handle, at
/// every durability level and before any request reaches the backend.
pub proof fn law_empty_key_rejected(h: HandleState, key: Vec<u8>, value: Vec<u8>, durability: DurabilityLevel)
    requires
        h.open,
        key@.len() == 0,
    ensures
        put_action(h, key, value, durability) == Action::Return(Err(StorageError::InvalidKey)),
{
}

/// Through a read-only handle a `put` fails with `ReadOnlyViolation` before
/// any request reaches the backend, and a `get` still hands back what the
/// backend holds.
pub proof fn law_read_only_enforced(
    h: HandleState,
    records: Records,
    key: Vec<u8>,
    value: Vec<u8>,
    durability: DurabilityLevel,
    trace: Seq<Exchange>,
    end: HandleState,
    result: Result<Completion, StorageError>,
)
    requires
        h.open,
        h.read_only,
        key@.len() > 0,
        runs(h, get_action(h, key), trace, end, result),
        honest(records, trace),
    ensures
        put_action(h, key, value, durability) == Action::Return(Err(StorageError::ReadOnlyViolation)),
        delete_action(h, key) == Action::Return(Err(StorageError::ReadOnlyViolation)),
        result is Ok,
        records.contains_key(key@) ==> found(result, records[key@]),
        !records.contains_key(key@) ==> result == Ok::<Completion, StorageError>(Completion::Value(None)),
{
    lemma_get_runs(h, records, key, trace, end, result);
}

/// No two entries of an ascending listing have the same key.
pub proof fn lemma_ascending_distinct(list: Seq<Record>, i: int, j: int)
    requires
        ascending(list),
        0 <= i < list.len(),
        0 <= j < list.len(),
        i != j,
    ensures
        list[i].key@ != list[j].key@,
{
    lemma_key_lt_irreflexive(list[i].key@);
    if i < j {
        assert(key_lt(list[i].key@, list[j].key@));
    } else {
        assert(key_lt(list[j].key@, list[i].key@));
    }
}

/// The records that a `scan` hands back come with their keys in strictly
/// ascending byte order, so none comes twice, whatever the adapter listed.
/// Where the adapter answered honestly they are exactly the records of the
/// backend whose keys lie in the range.
pub proof fn law_scan_ordered(
    h: HandleState,
    records: Records,
    range: KeyRange,
    action: Action,
    trace: Seq<Exchange>,
    end: HandleState,
    listed: Vec<Record>,
)
    requires
        scan_begins(h, range, action),
        runs(h, action, trace, end, Ok(Completion::Records(listed))),
    ensures
        ascending(listed@),
        forall|i: int, j: int| 0 <= i < listed@.len() && 0 <= j < listed@.len() && i != j ==> listed@[i].key@ != listed@[j].key@,
        honest(records, trace) ==> listing_map(listed@) == within(records, range@),
        outcome(records, trace) == records,
        end == h,
{
    reveal_with_fuel(runs, 3);
    reveal_with_fuel(honest, 3);
    reveal_with_fuel(outcome, 3);
    assert forall|i: int, j: int| 0 <= i < listed@.len() && 0 <= j < listed@.len() && i != j implies listed@[i].key@
        != listed@[j].key@ by {
        lemma_ascending_distinct(listed@, i, j);
    }
    if void(range@) {
        assert forall|key: Seq<u8>| !in_bounds(range@, key) by {
            lemma_void_holds_nothing(range@, key);
        }
        assert(listing_map(listed@) =~= within(records, range@));
    } else if honest(records, trace) {
        let list = trace[0].reply->Records_0;
        assert(within(within(listing_map(list@), range@), range@) =~= within(listing_map(list@), range@));
        assert(within(within(records, range@), range@) =~= within(records, range@));
    }
}

/// A closed handle admits no operation: each fails with `HandleClosed`
/// before any request reaches the backend. Closing it again does nothing.
pub proof fn law_closed_handle_refuses(
    h: HandleState,
    key: Vec<u8>,
    value: Vec<u8>,
    durability: DurabilityLevel,
    range: KeyRange,
    action: Action,
)
    requires
        !h.open,
        scan_begins(h, range, action),
    ensures
        get_action(h, key) == Action::Return(Err(StorageError::HandleClosed)),
        put_action(h, key, value, durability) == Action::Return(Err(StorageError::HandleClosed)),
        delete_action(h, key) == Action::Return(Err(StorageError::HandleClosed)),
        action == Action::Return(Err(StorageError::HandleClosed)),
        flush_action(h) == Action::Return(Err(StorageError::HandleClosed)),
        sync_action(h) == Action::Return(Err(StorageError::HandleClosed)),
        close_action(h) == Action::Return(Ok(Completion::Closed { flush_failed: false })),
{
}

} // verus!
