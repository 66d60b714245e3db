use vstd::prelude::*;

verus! {

/// A failure of the storage layer; each variant carries the engine's own message.
#[derive(Debug, PartialEq, Eq)]
pub enum StoreError {
    /// The table could not be created.
    Create(String),
    /// A row could not be inserted.
    Insert(String),
    /// The database could not be opened.
    Open(String),
    /// The rows could not be read back.
    Query(String),
}

/// Everything that aborts a run.
#[derive(Debug, PartialEq, Eq)]
pub enum RoutyError {
    /// The extract could not be opened or decoded.
    SourceRead(String),
    /// A road refers to a point that the extract did not provide.
    MissingNode { way_id: i64, node_id: i64 },
    /// Saving or loading the edge table failed.
    Store(StoreError),
}

/// Result of the operations of this library.
pub type RoutyResult<T> = Result<T, RoutyError>;

} // verus!
