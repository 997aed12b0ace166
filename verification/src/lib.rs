//! Synchronization and traversal of AI-authorship provenance records stored
//! as repository notes.
//!
//! The library holds the verified core: parsing the bulk object-retrieval
//! wire protocol, enumerating note blobs, extracting touched file paths from
//! note payloads, and the decision logic of the fetch/pull hooks.
//! Subprocess execution, threads and the external schema parser live
//! outside; their observed outcomes are handed in as plain values, and every
//! decision taken on them here is proved.

pub mod command;
pub mod exchange;
pub mod extract;
pub mod feature_flags;
pub mod hooks;
pub mod scan;
pub mod traversal;
