//! The error reported when a pool cannot be constructed.

use vstd::prelude::*;

verus! {

/// Why a pool could not be built.
#[derive(Debug)]
pub enum PoolCreationError {
    /// The requested number of workers was zero; the message says so in words.
    InvalidSize(String),
}

/// The text carried by the error for a pool of zero workers.
pub open spec fn zero_size_message() -> Seq<char> {
    "ThreadPool cannot be zero."@
}

impl PoolCreationError {
    /// The characters of the message that the error carries.
    pub open spec fn message_view(&self) -> Seq<char> {
        match self {
            PoolCreationError::InvalidSize(msg) => msg@,
        }
    }

    /// The human-readable message of the error.
    pub fn message(&self) -> (msg: String)
        ensures
            msg@ == self.message_view(),
    {
        match self {
            PoolCreationError::InvalidSize(msg) => msg.clone(),
        }
    }
}

} // verus!
