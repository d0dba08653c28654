use crate::backend::{BackendKind, Registry};
use crate::config::OpenConfig;
use crate::durability::DurabilityLevel;
use crate::error::StorageError;
use crate::key::{void, KeyRange};
use crate::protocol::{Action, Completion, Exchange, Reply, Request, Stage};
use crate::table::{arrange, ascending, listing_map, within};
use vstd::prelude::*;

verus! {

/// Who holds a location at the moment it is to be opened.
#[derive(Clone, Copy, Debug, PartialEq, Eq, Structural)]
pub enum Holders {
    /// No handle is open on the location.
    Nobody,
    /// Only read-only handles are open on it.
    Readers,
    /// A handle that may write is open on it.
    Writer,
}

/// What is known of a location at the moment it is to be opened.
#[derive(Clone, Copy, Debug, PartialEq, Eq, Structural)]
pub struct LocationState {
    /// The location exists.
    pub exists: bool,
    /// The handles that are open on it.
    pub holders: Holders,
}

/// What a handle knows: the abstract state of an [`EngineHandle`].
pub struct HandleState {
    /// The backend behind the handle.
    pub kind: BackendKind,
    /// The location the handle was opened on.
    pub location: Seq<char>,
    /// Mutations are refused.
    pub read_only: bool,
    /// The handle was opened and not yet closed.
    pub open: bool,
    /// The level that every write made through the handle has reached.
    pub reached: DurabilityLevel,
}

/// Whether a new handle on a location is shut out by those that hold it.
/// A writer shuts out everyone. Readers shut out a writer, and another
/// reader too unless the backend lets readers share.
pub open spec fn shut_out(kind: BackendKind, read_only: bool, holders: Holders) -> bool {
    match holders {
        Holders::Nobody => false,
        Holders::Readers => !(read_only && kind.spec_capabilities().shared_readers),
        Holders::Writer => true,
    }
}

/// Why a location cannot be opened, if it cannot.
pub open spec fn open_refusal(
    registered: Set<BackendKind>,
    kind: BackendKind,
    config: OpenConfig,
    state: LocationState,
) -> Option<StorageError> {
    if !registered.contains(kind) {
        Some(StorageError::BackendUnavailable)
    } else if !state.exists && !config.create_if_missing {
        Some(StorageError::NotFound)
    } else if shut_out(kind, config.read_only, state.holders) {
        Some(StorageError::LocationBusy)
    } else {
        None
    }
}

/// Why an operation on `key` that reads is not admitted, if it is not.
pub open spec fn read_refusal(h: HandleState, key: Seq<u8>) -> Option<StorageError> {
    if !h.open {
        Some(StorageError::HandleClosed)
    } else if key.len() == 0 {
        Some(StorageError::InvalidKey)
    } else {
        None
    }
}

/// Why an operation on `key` that changes the records is not admitted, if
/// it is not.
pub open spec fn write_refusal(h: HandleState, key: Seq<u8>) -> Option<StorageError> {
    if !h.open {
        Some(StorageError::HandleClosed)
    } else if key.len() == 0 {
        Some(StorageError::InvalidKey)
    } else if h.read_only {
        Some(StorageError::ReadOnlyViolation)
    } else {
        None
    }
}

/// The first step of `get`.
pub open spec fn get_action(h: HandleState, key: Vec<u8>) -> Action {
    match read_refusal(h, key@) {
        Some(e) => Action::Return(Err(e)),
        None => Action::Perform { request: Request::Read { key }, stage: Stage::Reading },
    }
}

/// The first step of `put`.
pub open spec fn put_action(h: HandleState, key: Vec<u8>, value: Vec<u8>, durability: DurabilityLevel) -> Action {
    match write_refusal(h, key@) {
        Some(e) => Action::Return(Err(e)),
        None => Action::Perform { request: Request::Write { key, value }, stage: Stage::Writing(durability) },
    }
}

/// The first step of `delete`.
pub open spec fn delete_action(h: HandleState, key: Vec<u8>) -> Action {
    match write_refusal(h, key@) {
        Some(e) => Action::Return(Err(e)),
        None => Action::Perform { request: Request::Remove { key }, stage: Stage::Removing },
    }
}

/// Whether `action` is the first step of `scan` over `range`. A range
/// that can hold no key is answered at once and never reaches the backend.
pub open spec fn scan_begins(h: HandleState, range: KeyRange, action: Action) -> bool {
    if !h.open {
        action == Action::Return(Err(StorageError::HandleClosed))
    } else if void(range@) {
        match action {
            Action::Return(Ok(Completion::Records(records))) => records@.len() == 0,
            _ => false,
        }
    } else {
        match action {
            Action::Perform { request: Request::List { range: asked }, stage: Stage::Listing(kept) } => {
                asked@ == range@ && kept@ == range@
            },
            _ => false,
        }
    }
}

/// The first step of `flush`.
pub open spec fn flush_action(h: HandleState) -> Action {
    if !h.open {
        Action::Return(Err(StorageError::HandleClosed))
    } else {
        Action::Perform { request: Request::Flush, stage: Stage::Flushing }
    }
}

/// The first step of `sync`.
pub open spec fn sync_action(h: HandleState) -> Action {
    if !h.open {
        Action::Return(Err(StorageError::HandleClosed))
    } else {
        Action::Perform { request: Request::Sync, stage: Stage::Syncing }
    }
}

/// The first step of `close`. A closed handle has nothing left to do. An
/// open one flushes first if a write is still buffered.
pub open spec fn close_action(h: HandleState) -> Action {
    if !h.open {
        Action::Return(Ok(Completion::Closed { flush_failed: false }))
    } else if h.reached == DurabilityLevel::Buffered {
        Action::Perform { request: Request::Flush, stage: Stage::Closing }
    } else {
        Action::Perform { request: Request::Release, stage: Stage::Releasing { flush_failed: false } }
    }
}

/// The state of a handle after the reply to the request of `stage` came in.
pub open spec fn after(h: HandleState, stage: Stage, reply: Reply) -> HandleState {
    if !h.open {
        h
    } else {
        match stage {
            Stage::Releasing { .. } => HandleState { open: false, ..h },
            Stage::Writing(_) | Stage::Removing => if reply == Reply::Done {
                HandleState { reached: DurabilityLevel::Buffered, ..h }
            } else {
                h
            },
            Stage::Flushing | Stage::Closing => if reply == Reply::Done && h.reached == DurabilityLevel::Buffered {
                HandleState { reached: DurabilityLevel::Flushed, ..h }
            } else {
                h
            },
            Stage::Syncing => if reply == Reply::Done {
                HandleState { reached: DurabilityLevel::Synced, ..h }
            } else {
                h
            },
            _ => h,
        }
    }
}

/// Whether `action` is what follows when the reply to the request of
/// `stage` comes in.
pub open spec fn follows(h: HandleState, stage: Stage, reply: Reply, action: Action) -> bool {
    let io_failure = Action::Return(Err(StorageError::IOFailure { backend: h.kind }));
    let durability_failure = Action::Return(Err(StorageError::DurabilityFailure { backend: h.kind }));
    let done = Action::Return(Ok(Completion::Done));
    match stage {
        Stage::Releasing { flush_failed } => action == Action::Return(Ok(Completion::Closed { flush_failed })),
        _ if !h.open => action == Action::Return(Err(StorageError::HandleClosed)),
        Stage::Reading => match reply {
            Reply::Value(found) => action == Action::Return(Ok(Completion::Value(found))),
            _ => action == io_failure,
        },
        Stage::Writing(durability) => match reply {
            Reply::Done => match durability {
                DurabilityLevel::Buffered => action == done,
                DurabilityLevel::Flushed => action == (Action::Perform {
                    request: Request::Flush,
                    stage: Stage::Flushing,
                }),
                DurabilityLevel::Synced => action == (Action::Perform {
                    request: Request::Sync,
                    stage: Stage::Syncing,
                }),
            },
            _ => action == io_failure,
        },
        Stage::Removing => match reply {
            Reply::Done => action == done,
            _ => action == io_failure,
        },
        Stage::Listing(range) => match reply {
            Reply::Records(list) => match action {
                Action::Return(Ok(Completion::Records(records))) => {
                    &&& ascending(records@)
                    &&& listing_map(records@) == within(listing_map(list@), range@)
                },
                _ => false,
            },
            _ => action == io_failure,
        },
        Stage::Flushing | Stage::Syncing => match reply {
            Reply::Done => action == done,
            _ => action == durability_failure,
        },
        Stage::Closing => action == (Action::Perform {
            request: Request::Release,
            stage: Stage::Releasing { flush_failed: reply != Reply::Done },
        }),
    }
}

/// Whether an operation that begins with `action` on a handle in state `h`
/// runs through exactly the exchanges of `trace` with the adapter, leaves
/// the handle in state `end` and hands `result` to the caller.
pub open spec fn runs(
    h: HandleState,
    action: Action,
    trace: Seq<Exchange>,
    end: HandleState,
    result: Result<Completion, StorageError>,
) -> bool
    decreases trace.len(),
{
    match action {
        Action::Return(r) => trace.len() == 0 && end == h && result == r,
        Action::Perform { request, stage } => {
            &&& trace.len() > 0
            &&& trace[0].request == request
            &&& exists|next: Action| #[trigger]
                follows(h, stage, trace[0].reply, next) && runs(
                    after(h, stage, trace[0].reply),
                    next,
                    trace.drop_first(),
                    end,
                    result,
                )
        },
    }
}

/// An open or closed backend instance at one storage location.
///
/// The handle decides and the adapter works: each operation hands back an
/// [`Action`], which either ends the operation or names the request that
/// the adapter has to carry out before [`EngineHandle::resume`] is called
/// with its reply.
#[derive(Debug)]
pub struct EngineHandle {
    kind: BackendKind,
    location: String,
    read_only: bool,
    open: bool,
    reached: DurabilityLevel,
}

impl View for EngineHandle {
    type V = HandleState;

    closed spec fn view(&self) -> HandleState {
        HandleState {
            kind: self.kind,
            location: self.location@,
            read_only: self.read_only,
            open: self.open,
            reached: self.reached,
        }
    }
}

impl EngineHandle {
    /// Opens `location` on the backend `kind`.
    ///
    /// Fails with `BackendUnavailable` if no adapter is registered for the
    /// backend, else with `NotFound` if the location does not exist and is
    /// not to be created, else with `LocationBusy` if those that hold the
    /// location shut the new handle out.
    pub fn open(
        registry: &Registry,
        kind: BackendKind,
        location: String,
        config: OpenConfig,
        state: LocationState,
    ) -> (r: Result<EngineHandle, StorageError>)
        ensures
            match r {
                Ok(handle) => {
                    &&& open_refusal(registry@, kind, config, state) is None
                    &&& handle@ == (HandleState {
                        kind,
                        location: location@,
                        read_only: config.read_only,
                        open: true,
                        reached: DurabilityLevel::Synced,
                    })
                },
                Err(e) => open_refusal(registry@, kind, config, state) == Some(e),
            },
    {
        if !registry.contains(kind) {
            return Err(StorageError::BackendUnavailable);
        }
        if !state.exists && !config.create_if_missing {
            return Err(StorageError::NotFound);
        }
        let busy: bool = match state.holders {
            Holders::Nobody => false,
            Holders::Readers => !(config.read_only && kind.capabilities().shared_readers),
            Holders::Writer => true,
        };
        if busy {
            return Err(StorageError::LocationBusy);
        }
        Ok(
            EngineHandle {
                kind,
                location,
                read_only: config.read_only,
                open: true,
                reached: DurabilityLevel::Synced,
            },
        )
    }

    /// The backend behind the handle.
    pub fn kind(&self) -> (r: BackendKind)
        ensures
            r == self@.kind,
    {
        self.kind
    }

    /// The location the handle was opened on.
    pub fn location(&self) -> (r: &str)
        ensures
            r@ == self@.location,
    {
        self.location.as_str()
    }

    /// Whether the handle refuses mutations.
    pub fn is_read_only(&self) -> (r: bool)
        ensures
            r == self@.read_only,
    {
        self.read_only
    }

    /// Whether the handle was opened and not yet closed.
    pub fn is_open(&self) -> (r: bool)
        ensures
            r == self@.open,
    {
        self.open
    }

    /// The level that every write made through the handle has reached.
    pub fn reached(&self) -> (r: DurabilityLevel)
        ensures
            r == self@.reached,
    {
        self.reached
    }

    /// Begins the lookup of the value of `key`.
    pub fn get(&self, key: Vec<u8>) -> (action: Action)
        ensures
            action == get_action(self@, key),
    {
        if !self.open {
            Action::Return(Err(StorageError::HandleClosed))
        } else if key.len() == 0 {
            Action::Return(Err(StorageError::InvalidKey))
        } else {
            Action::Perform { request: Request::Read { key }, stage: Stage::Reading }
        }
    }

    /// Begins to store `value` under `key` at the given durability.
    pub fn put(&self, key: Vec<u8>, value: Vec<u8>, durability: DurabilityLevel) -> (action: Action)
        ensures
            action == put_action(self@, key, value, durability),
    {
        if !self.open {
            Action::Return(Err(StorageError::HandleClosed))
        } else if key.len() == 0 {
            Action::Return(Err(StorageError::InvalidKey))
        } else if self.read_only {
            Action::Return(Err(StorageError::ReadOnlyViolation))
        } else {
            Action::Perform { request: Request::Write { key, value }, stage: Stage::Writing(durability) }
        }
    }

    /// Begins to remove the record of `key`.
    pub fn delete(&self, key: Vec<u8>) -> (action: Action)
        ensures
            action == delete_action(self@, key),
    {
        if !self.open {
            Action::Return(Err(StorageError::HandleClosed))
        } else if key.len() == 0 {
            Action::Return(Err(StorageError::InvalidKey))
        } else if self.read_only {
            Action::Return(Err(StorageError::ReadOnlyViolation))
        } else {
            Action::Perform { request: Request::Remove { key }, stage: Stage::Removing }
        }
    }

    /// Begins to list the records whose keys lie in `range`.
    pub fn scan(&self, range: KeyRange) -> (action: Action)
        ensures
            scan_begins(self@, range, action),
    {
        if !self.open {
            Action::Return(Err(StorageError::HandleClosed))
        } else if range.is_void() {
            Action::Return(Ok(Completion::Records(Vec::new())))
        } else {
            let asked = range.duplicate();
            Action::Perform { request: Request::List { range: asked }, stage: Stage::Listing(range) }
        }
    }

    /// Begins a flush.
    pub fn flush(&self) -> (action: Action)
        ensures
            action == flush_action(self@),
    {
        if !self.open {
            Action::Return(Err(StorageError::HandleClosed))
        } else {
            Action::Perform { request: Request::Flush, stage: Stage::Flushing }
        }
    }

    /// Begins a sync.
    pub fn sync(&self) -> (action: Action)
        ensures
            action == sync_action(self@),
    {
        if !self.open {
            Action::Return(Err(StorageError::HandleClosed))
        } else {
            Action::Perform { request: Request::Sync, stage: Stage::Syncing }
        }
    }

    /// Begins to close the handle. Closing a closed handle does nothing.
    pub fn close(&self) -> (action: Action)
        ensures
            action == close_action(self@),
    {
        if !self.open {
            Action::Return(Ok(Completion::Closed { flush_failed: false }))
        } else if matches!(self.reached, DurabilityLevel::Buffered) {
            Action::Perform { request: Request::Flush, stage: Stage::Closing }
        } else {
            Action::Perform { request: Request::Release, stage: Stage::Releasing { flush_failed: false } }
        }
    }

    /// Takes the adapter's reply to the request of `stage` and says what
    /// follows: the next request of the operation, or its result.
    pub fn resume(&mut self, stage: Stage, reply: Reply) -> (action: Action)
        ensures
            final(self)@ == after(old(self)@, stage, reply),
            follows(old(self)@, stage, reply, action),
    {
        let io_failure = StorageError::IOFailure { backend: self.kind };
        let durability_failure = StorageError::DurabilityFailure { backend: self.kind };
        match stage {
            Stage::Releasing { flush_failed } => {
                self.open = false;
                Action::Return(Ok(Completion::Closed { flush_failed }))
            },
            _ if !self.open => Action::Return(Err(StorageError::HandleClosed)),
            Stage::Reading => match reply {
                Reply::Value(found) => Action::Return(Ok(Completion::Value(found))),
                _ => Action::Return(Err(io_failure)),
            },
            Stage::Writing(durability) => match reply {
                Reply::Done => {
                    self.reached = DurabilityLevel::Buffered;
                    match durability {
                        DurabilityLevel::Buffered => Action::Return(Ok(Completion::Done)),
                        DurabilityLevel::Flushed => Action::Perform {
                            request: Request::Flush,
                            stage: Stage::Flushing,
                        },
                        DurabilityLevel::Synced => Action::Perform { request: Request::Sync, stage: Stage::Syncing },
                    }
                },
                _ => Action::Return(Err(io_failure)),
            },
            Stage::Removing => match reply {
                Reply::Done => {
                    self.reached = DurabilityLevel::Buffered;
                    Action::Return(Ok(Completion::Done))
                },
                _ => Action::Return(Err(io_failure)),
            },
            Stage::Listing(range) => match reply {
                Reply::Records(list) => Action::Return(Ok(Completion::Records(arrange(list, &range)))),
                _ => Action::Return(Err(io_failure)),
            },
            Stage::Flushing => match reply {
                Reply::Done => {
                    self.note_flush();
                    Action::Return(Ok(Completion::Done))
                },
                _ => Action::Return(Err(durability_failure)),
            },
            Stage::Syncing => match reply {
                Reply::Done => {
                    self.reached = DurabilityLevel::Synced;
                    Action::Return(Ok(Completion::Done))
                },
                _ => Action::Return(Err(durability_failure)),
            },
            Stage::Closing => match reply {
                Reply::Done => {
                    self.note_flush();
                    Action::Perform { request: Request::Release, stage: Stage::Releasing { flush_failed: false } }
                },
                _ => Action::Perform { request: Request::Release, stage: Stage::Releasing { flush_failed: true } },
            },
        }
    }

    /// Records that everything written so far was flushed.
    fn note_flush(&mut self)
        ensures
            final(self)@ == (HandleState {
                reached: if old(self)@.reached == DurabilityLevel::Buffered {
                    DurabilityLevel::Flushed
                } else {
                    old(self)@.reached
                },
                ..old(self)@
            }),
    {
        if matches!(self.reached, DurabilityLevel::Buffered) {
            self.reached = DurabilityLevel::Flushed;
        }
    }
}

} // verus!
