use crate::backend::{BackendKind, Registry};
use crate::config::OpenConfig;
use crate::durability::DurabilityLevel;
use crate::error::StorageError;
use crate::handle::{open_refusal, read_refusal, runs, write_refusal, EngineHandle, HandleState, LocationState};
use crate::key::KeyRange;
use crate::laws::{
    law_scan_ordered, lemma_close_runs, lemma_delete_runs, lemma_flush_sync_run, lemma_get_runs, lemma_put_runs,
};
use crate::memory::run;
use crate::protocol::{honest, outcome, Completion, Exchange};
use crate::table::{ascending, listing_map, within, Record, RecordTable, Records};
use vstd::pervasive::unreached;
use vstd::prelude::*;

verus! {

/// A handle on the baseline backend together with the table that holds
/// its records in memory: the whole interface in one place, for callers
/// that need no engine behind it.
#[derive(Debug)]
pub struct MemoryStore {
    handle: EngineHandle,
    table: RecordTable,
}

impl MemoryStore {
    /// What the handle of the store knows.
    pub closed spec fn state(&self) -> HandleState {
        self.handle@
    }

    /// The records that the store holds.
    pub closed spec fn records(&self) -> Records {
        self.table@
    }

    /// Opens `location` on the baseline backend, with `table` as what the
    /// location holds. It fails where opening a handle fails.
    pub fn open(
        registry: &Registry,
        location: String,
        config: OpenConfig,
        state: LocationState,
        table: RecordTable,
    ) -> (r: Result<MemoryStore, StorageError>)
        ensures
            match r {
                Ok(store) => {
                    &&& open_refusal(registry@, BackendKind::Baseline, config, state) is None
                    &&& store.records() == table@
                    &&& store.state() == (HandleState {
                        kind: BackendKind::Baseline,
                        location: location@,
                        read_only: config.read_only,
                        open: true,
                        reached: DurabilityLevel::Synced,
                    })
                },
                Err(e) => open_refusal(registry@, BackendKind::Baseline, config, state) == Some(e),
            },
    {
        match EngineHandle::open(registry, BackendKind::Baseline, location, config, state) {
            Ok(handle) => Ok(MemoryStore { handle, table }),
            Err(e) => Err(e),
        }
    }

    /// Whether the store was opened and not yet closed.
    pub fn is_open(&self) -> (r: bool)
        ensures
            r == self.state().open,
    {
        self.handle.is_open()
    }

    /// The level that every write made through the store has reached.
    pub fn reached(&self) -> (r: DurabilityLevel)
        ensures
            r == self.state().reached,
    {
        self.handle.reached()
    }

    /// The value stored under `key`, or its absence.
    pub fn get(&mut self, key: Vec<u8>) -> (r: Result<Option<Vec<u8>>, StorageError>)
        ensures
            final(self).state() == old(self).state(),
            final(self).records() == old(self).records(),
            match read_refusal(old(self).state(), key@) {
                Some(e) => r == Err::<Option<Vec<u8>>, StorageError>(e),
                None => match r {
                    Ok(Some(value)) => old(self).records().contains_key(key@) && old(self).records()[key@]
                        == value@,
                    Ok(None) => !old(self).records().contains_key(key@),
                    Err(_) => false,
                },
            },
    {
        let action = self.handle.get(key);
        let result = run(&mut self.handle, &mut self.table, action);
        proof {
            let h = old(self).state();
            let records = old(self).records();
            let trace = choose|trace: Seq<Exchange>|
                {
                    &&& #[trigger] runs(h, action, trace, self.handle@, result)
                    &&& honest(records, trace)
                    &&& self.table@ == outcome(records, trace)
                };
            if read_refusal(h, key@) is None {
                lemma_get_runs(h, records, key, trace, self.handle@, result);
            }
        }
        match result {
            Ok(Completion::Value(found)) => Ok(found),
            Ok(_) => unreached(),
            Err(e) => Err(e),
        }
    }

    /// Stores `value` under `key` at the given durability.
    pub fn put(&mut self, key: Vec<u8>, value: Vec<u8>, durability: DurabilityLevel) -> (r: Result<
        (),
        StorageError,
    >)
        ensures
            match write_refusal(old(self).state(), key@) {
                Some(e) => {
                    &&& r == Err::<(), StorageError>(e)
                    &&& final(self).state() == old(self).state()
                    &&& final(self).records() == old(self).records()
                },
                None => {
                    &&& r is Ok
                    &&& final(self).state() == (HandleState { reached: durability, ..old(self).state() })
                    &&& final(self).records() == old(self).records().insert(key@, value@)
                },
            },
    {
        let action = self.handle.put(key, value, durability);
        let result = run(&mut self.handle, &mut self.table, action);
        proof {
            let h = old(self).state();
            let records = old(self).records();
            let trace = choose|trace: Seq<Exchange>|
                {
                    &&& #[trigger] runs(h, action, trace, self.handle@, result)
                    &&& honest(records, trace)
                    &&& self.table@ == outcome(records, trace)
                };
            if write_refusal(h, key@) is None {
                lemma_put_runs(h, records, key, value, durability, trace, self.handle@, result);
            }
        }
        match result {
            Ok(_) => Ok(()),
            Err(e) => Err(e),
        }
    }

    /// Removes the record of `key`. That there is none is no error.
    pub fn delete(&mut self, key: Vec<u8>) -> (r: Result<(), StorageError>)
        ensures
            match write_refusal(old(self).state(), key@) {
                Some(e) => {
                    &&& r == Err::<(), StorageError>(e)
                    &&& final(self).state() == old(self).state()
                    &&& final(self).records() == old(self).records()
                },
                None => {
                    &&& r is Ok
                    &&& final(self).state() == (HandleState {
                        reached: DurabilityLevel::Buffered,
                        ..old(self).state()
                    })
                    &&& final(self).records() == old(self).records().remove(key@)
                },
            },
    {
        let action = self.handle.delete(key);
        let result = run(&mut self.handle, &mut self.table, action);
        proof {
            let h = old(self).state();
            let records = old(self).records();
            let trace = choose|trace: Seq<Exchange>|
                {
                    &&& #[trigger] runs(h, action, trace, self.handle@, result)
                    &&& honest(records, trace)
                    &&& self.table@ == outcome(records, trace)
                };
            if write_refusal(h, key@) is None {
                lemma_delete_runs(h, records, key, trace, self.handle@, result);
            }
        }
        match result {
            Ok(_) => Ok(()),
            Err(e) => Err(e),
        }
    }

    /// The records whose keys lie in `range`, in ascending byte order of
    /// their keys.
    pub fn scan(&mut self, range: KeyRange) -> (r: Result<Vec<Record>, StorageError>)
        ensures
            final(self).state() == old(self).state(),
            final(self).records() == old(self).records(),
            match r {
                Ok(listed) => {
                    &&& old(self).state().open
                    &&& ascending(listed@)
                    &&& listing_map(listed@) == within(old(self).records(), range@)
                },
                Err(e) => !old(self).state().open && e == StorageError::HandleClosed,
            },
    {
        let action = self.handle.scan(range);
        let result = run(&mut self.handle, &mut self.table, action);
        proof {
            let h = old(self).state();
            let records = old(self).records();
            let trace = choose|trace: Seq<Exchange>|
                {
                    &&& #[trigger] runs(h, action, trace, self.handle@, result)
                    &&& honest(records, trace)
                    &&& self.table@ == outcome(records, trace)
                };
            reveal_with_fuel(runs, 3);
            reveal_with_fuel(honest, 3);
            reveal_with_fuel(outcome, 3);
            if result is Ok && result->Ok_0 is Records {
                law_scan_ordered(h, records, range, action, trace, self.handle@, result->Ok_0->Records_0);
            }
        }
        match result {
            Ok(Completion::Records(listed)) => Ok(listed),
            Ok(_) => unreached(),
            Err(e) => Err(e),
        }
    }

    /// Hands every buffered write to the persistence layer, which here has
    /// nothing to do.
    pub fn flush(&mut self) -> (r: Result<(), StorageError>)
        ensures
            final(self).records() == old(self).records(),
            if old(self).state().open {
                &&& r is Ok
                &&& final(self).state() == (HandleState {
                    reached: if old(self).state().reached == DurabilityLevel::Buffered {
                        DurabilityLevel::Flushed
                    } else {
                        old(self).state().reached
                    },
                    ..old(self).state()
                })
            } else {
                &&& r == Err::<(), StorageError>(StorageError::HandleClosed)
                &&& final(self).state() == old(self).state()
            },
    {
        let action = self.handle.flush();
        let result = run(&mut self.handle, &mut self.table, action);
        proof {
            let h = old(self).state();
            let records = old(self).records();
            let trace = choose|trace: Seq<Exchange>|
                {
                    &&& #[trigger] runs(h, action, trace, self.handle@, result)
                    &&& honest(records, trace)
                    &&& self.table@ == outcome(records, trace)
                };
            if h.open {
                lemma_flush_sync_run(h, records, false, trace, self.handle@, result);
            }
        }
        match result {
            Ok(_) => Ok(()),
            Err(e) => Err(e),
        }
    }

    /// Waits until every write made so far is recoverable, which here has
    /// nothing to wait for.
    pub fn sync(&mut self) -> (r: Result<(), StorageError>)
        ensures
            final(self).records() == old(self).records(),
            if old(self).state().open {
                &&& r is Ok
                &&& final(self).state() == (HandleState { reached: DurabilityLevel::Synced, ..old(self).state() })
            } else {
                &&& r == Err::<(), StorageError>(StorageError::HandleClosed)
                &&& final(self).state() == old(self).state()
            },
    {
        let action = self.handle.sync();
        let result = run(&mut self.handle, &mut self.table, action);
        proof {
            let h = old(self).state();
            let records = old(self).records();
            let trace = choose|trace: Seq<Exchange>|
                {
                    &&& #[trigger] runs(h, action, trace, self.handle@, result)
                    &&& honest(records, trace)
                    &&& self.table@ == outcome(records, trace)
                };
            if h.open {
                lemma_flush_sync_run(h, records, true, trace, self.handle@, result);
            }
        }
        match result {
            Ok(_) => Ok(()),
            Err(e) => Err(e),
        }
    }

    /// Closes the store. Its records stay as they are, and closing it
    /// again does nothing.
    pub fn close(&mut self)
        ensures
            !final(self).state().open,
            final(self).records() == old(self).records(),
            !old(self).state().open ==> final(self).state() == old(self).state(),
    {
        let action = self.handle.close();
        let result = run(&mut self.handle, &mut self.table, action);
        proof {
            let h = old(self).state();
            let records = old(self).records();
            let trace = choose|trace: Seq<Exchange>|
                {
                    &&& #[trigger] runs(h, action, trace, self.handle@, result)
                    &&& honest(records, trace)
                    &&& self.table@ == outcome(records, trace)
                };
            lemma_close_runs(h, records, trace, self.handle@, result);
            reveal_with_fuel(runs, 2);
        }
    }

    /// The table of the store's records, as it is to be kept for the next
    /// opening.
    pub fn into_table(self) -> (r: RecordTable)
        ensures
            r@ == self.records(),
    {
        self.table
    }
}

} // verus!
