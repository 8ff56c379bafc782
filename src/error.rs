//! The library's error kinds.

use vstd::prelude::*;

verus! {

/// A failure reported by the underlying store, reduced to plain values.
#[derive(Debug, Clone)]
pub enum StoreError {
    /// The database itself refused the statement; the text is its message.
    Database(String),
    /// A statement that must yield a row yielded none.
    RowNotFound,
    /// Any other failure (connection, pool, decoding), with a description.
    Other(String),
}

/// Why a catalog operation or a startup step did not complete.
#[derive(Debug, Clone)]
pub enum Error {
    /// No operation of that name exists in the half of the catalog asked.
    QueryDoesNotExist,
    /// The call carried a different number of arguments than the operation
    /// declares.
    WrongNumberOfArgs,
    /// The store reported a failure.
    Store(StoreError),
}

} // verus!
