//! The ways in which an operation of the catalogue can fail.

use vstd::prelude::*;

verus! {

/// Why a request was not answered.
#[derive(Debug, Clone, Copy, PartialEq, Eq, Structural)]
pub enum SearchError {
    /// A read was attempted before the catalogue was built.
    Uninitialized,
    /// The dataset, the alias table or the exclusion list is malformed.
    InvalidDataset,
    /// A query does not follow the query schema.
    InvalidQuery,
    /// The page number or the page size is below one.
    InvalidPagination,
}

impl SearchError {
    /// A short description, for callers that report the failure as text.
    pub fn message(&self) -> (text: &'static str)
        ensures
            text@ == match *self {
                SearchError::Uninitialized => "catalogue is not initialized"@,
                SearchError::InvalidDataset => "dataset is malformed"@,
                SearchError::InvalidQuery => "query is malformed"@,
                SearchError::InvalidPagination => "page and page size must be at least 1"@,
            },
    {
        match self {
            SearchError::Uninitialized => "catalogue is not initialized",
            SearchError::InvalidDataset => "dataset is malformed",
            SearchError::InvalidQuery => "query is malformed",
            SearchError::InvalidPagination => "page and page size must be at least 1",
        }
    }
}

} // verus!
