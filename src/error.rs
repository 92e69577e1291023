use vstd::prelude::*;

use crate::parse::ParseError;

verus! {

/// Why a load left the table as it was.
#[derive(Debug, Clone, PartialEq, Eq)]
pub enum LoadError {
    /// The input was rejected before the store was touched.
    Parse(ParseError),
    /// The store could not be reached or the transaction not opened; holds its message.
    Connection(String),
    /// A delete or insert failed and the transaction was rolled back; holds its message.
    Write(String),
}

/// Why a read gave no result.
#[derive(Debug, Clone, PartialEq, Eq)]
pub enum QueryError {
    /// A page size below 1; rejected before the store is read.
    InvalidArgument,
    /// No row has the key that was asked for.
    NotFound,
    /// The store failed during the read; holds its message.
    Store(String),
}

/// Failures of the host environment that the application reports.
#[derive(Debug, Clone, Copy, PartialEq, Eq, Structural)]
pub enum UtilError {
    /// The application data directory could not be determined.
    AppDataError,
}

} // verus!
