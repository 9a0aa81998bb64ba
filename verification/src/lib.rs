//! A bounded, linked mailbox record stored in externally owned binary
//! storage, plus the wire protocol used to create and mutate it.
//!
//! The crate has three layers: codecs for the tagged instruction union and
//! the fixed-layout records, a first-fit slot allocator over a mailbox
//! record's fixed slot table, and a dispatcher that validates caller and
//! region identities before it rewrites the storage regions handed to it.
pub mod address;
pub mod error;
pub mod instruction;
pub mod processor;
pub mod state;
pub mod wire;
