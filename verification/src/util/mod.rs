//! Identifiers, and how events get into storage.
pub mod laws;
pub mod mxid;
pub mod storage;

pub use crate::util::mxid::MatrixId;
pub use crate::util::storage::StorageExt;
