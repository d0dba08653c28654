//! A uniform embedded storage interface.
//!
//! The crate holds the part of a pluggable key-value store that decides:
//! which backend a name selects, whether a location may be opened, whether
//! an operation is admitted, which native request a backend adapter has to
//! carry out next, and what its reply means for the caller. It performs no
//! I/O. An adapter executes one [`protocol::Request`] at a time against its
//! engine and hands the [`protocol::Reply`] back to the handle.
//!
//! - [`handle`]: the engine handle, its operations and their steps.
//! - [`protocol`]: requests, replies and what an honest backend answers.
//! - [`locks`]: the handles that are open, and who holds a location.
//! - [`backend`], [`config`], [`durability`], [`error`]: the backend tags
//!   and their registry, the open options, the durability levels and the
//!   errors.
//! - [`key`], [`table`]: byte order on keys, key ranges, and an ordered
//!   table of records in memory.
//! - [`memory`], [`store`]: the table as a backend, and a store that needs
//!   no engine behind it.
//! - [`image`]: the records of the baseline backend as the bytes of a file.
//! - [`sql`]: requests as statements for the relational engines.
//! - [`laws`]: what holds of every run of the operations.

pub mod backend;
pub mod config;
pub mod durability;
pub mod error;
pub mod handle;
pub mod image;
pub mod key;
pub mod laws;
pub mod locks;
pub mod memory;
pub mod protocol;
pub mod sql;
pub mod store;
pub mod table;

pub use backend::{BackendKind, Capabilities, Registry};
pub use config::OpenConfig;
pub use durability::DurabilityLevel;
pub use error::StorageError;
pub use handle::{EngineHandle, HandleState, Holders, LocationState};
pub use key::{compare_keys, KeyOrder, KeyRange};
pub use locks::{holders_of, Holding, OpenLocations};
pub use memory::run;
pub use protocol::{Action, Completion, Reply, Request, Stage};
pub use store::MemoryStore;
pub use table::{arrange, Record, RecordTable};
