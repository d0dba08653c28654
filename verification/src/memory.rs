use crate::error::StorageError;
use crate::handle::{follows, runs, EngineHandle};
use crate::protocol::{effect, faithful, honest, outcome, Action, Completion, Exchange, Reply, Request, Stage};
use crate::table::{within, RecordTable};
use vstd::prelude::*;

verus! {

impl RecordTable {
    /// Carries out `request` on the table, as the backend that keeps its
    /// records in memory. It never fails.
    pub fn execute(&mut self, request: Request) -> (reply: Reply)
        ensures
            faithful(old(self)@, request, reply),
            final(self)@ == effect(old(self)@, request),
    {
        match request {
            Request::Read { key } => Reply::Value(self.get(key.as_slice())),
            Request::Write { key, value } => {
                self.put(key, value);
                Reply::Done
            },
            Request::Remove { key } => {
                self.delete(key.as_slice());
                Reply::Done
            },
            Request::List { range } => {
                let list = self.scan(&range);
                assert(within(within(self@, range@), range@) =~= within(self@, range@));
                Reply::Records(list)
            },
            Request::Flush => Reply::Done,
            Request::Sync => Reply::Done,
            Request::Release => Reply::Done,
        }
    }
}

/// How many requests an operation may still make.
pub open spec fn budget(action: Action) -> nat {
    match action {
        Action::Return(_) => 0,
        Action::Perform { stage, .. } => match stage {
            Stage::Writing(_) => 2,
            Stage::Closing => 2,
            _ => 1,
        },
    }
}

/// Runs an operation that begins with `action` to its end, with `table` as
/// the backend, and hands back its result.
pub fn run(handle: &mut EngineHandle, table: &mut RecordTable, action: Action) -> (result: Result<
    Completion,
    StorageError,
>)
    ensures
        exists|trace: Seq<Exchange>|
            {
                &&& #[trigger] runs(old(handle)@, action, trace, final(handle)@, result)
                &&& honest(old(table)@, trace)
                &&& final(table)@ == outcome(old(table)@, trace)
            },
    decreases budget(action),
{
    match action {
        Action::Return(result) => {
            assert(runs(old(handle)@, action, Seq::<Exchange>::empty(), handle@, result));
            result
        },
        Action::Perform { request, stage } => {
            let ghost asked = request;
            let ghost at = stage;
            let reply = table.execute(request);
            let ghost answered = reply;
            let ghost between = table@;
            let next = handle.resume(stage, reply);
            let ghost middle = handle@;
            let result = run(handle, table, next);
            proof {
                let rest = choose|trace: Seq<Exchange>|
                    {
                        &&& #[trigger] runs(middle, next, trace, handle@, result)
                        &&& honest(between, trace)
                        &&& table@ == outcome(between, trace)
                    };
                let first = Exchange { request: asked, reply: answered };
                let trace = seq![first] + rest;
                assert(trace.drop_first() =~= rest);
                assert(trace[0] == first);
                assert(follows(old(handle)@, at, answered, next));
                assert(runs(old(handle)@, action, trace, handle@, result));
                assert(honest(old(table)@, trace));
                assert(table@ == outcome(old(table)@, trace));
            }
            result
        },
    }
}

} // verus!
