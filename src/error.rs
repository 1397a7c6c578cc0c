//! The failures that the library reports.
use vstd::prelude::*;

verus! {

/// The failures that the tokenizer and its store report.
#[derive(Debug, Clone, Copy, PartialEq, Eq, Structural)]
pub enum Error {
    /// A file is missing, unreadable, or not valid text.
    IoError,
    /// A file record with this name exists already.
    AlreadyExists,
    /// The store could not commit a batch.
    StoreWriteError,
}

impl Error {
    /// A short message for the failure.
    pub fn message(&self) -> (r: String) {
        match self {
            Error::IoError => String::from_str("failed to read file"),
            Error::AlreadyExists => String::from_str("file already exists"),
            Error::StoreWriteError => String::from_str("failed to write to the store"),
        }
    }
}

} // verus!
