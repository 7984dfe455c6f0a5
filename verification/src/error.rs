//! What can go wrong with a page request.

use vstd::prelude::*;
use vstd::std_specs::convert::FromSpecImpl;

verus! {

/// A fault in what the client sent. It is reported to the client and never retried.
#[derive(Clone, Copy, Debug, PartialEq, Eq, Structural)]
pub enum ClientInputError {
    /// A cursor carries the expected tag, but what follows the tag is no integer key.
    MalformedCursor,
    /// Both `first` and `last` were supplied.
    BothDirections,
    /// `first` or `last` is negative.
    NegativeCount,
}

impl ClientInputError {
    /// The text of the message for the client.
    pub open spec fn message_text(self) -> Seq<char> {
        match self {
            ClientInputError::MalformedCursor => "Cursor does not hold an integer key"@,
            ClientInputError::BothDirections => "Arguments `first` and `last` exclude each other"@,
            ClientInputError::NegativeCount => "Pagination argument must be positive"@,
        }
    }

    /// A description of the fault for the client.
    pub fn message(&self) -> (s: &'static str)
        ensures
            s@ == self.message_text(),
    {
        match self {
            ClientInputError::MalformedCursor => "Cursor does not hold an integer key",
            ClientInputError::BothDirections => "Arguments `first` and `last` exclude each other",
            ClientInputError::NegativeCount => "Pagination argument must be positive",
        }
    }
}

/// A failure of the backing fetch, opaque to the pagination engine.
#[derive(Debug)]
pub struct StorageError {
    pub message: String,
}

/// Why a page request produced no connection.
#[derive(Debug)]
pub enum PageError {
    ClientInput(ClientInputError),
    Storage(StorageError),
}

impl PageError {
    /// The text of the message for the caller.
    pub open spec fn message_text(self) -> Seq<char> {
        match self {
            PageError::ClientInput(fault) => fault.message_text(),
            PageError::Storage(failure) => failure.message@,
        }
    }

    /// A description of the fault or the failure for the caller.
    pub fn message(&self) -> (s: String)
        ensures
            s@ == self.message_text(),
    {
        match self {
            PageError::ClientInput(fault) => String::from_str(fault.message()),
            PageError::Storage(failure) => failure.message.clone(),
        }
    }
}

impl From<ClientInputError> for PageError {
    fn from(fault: ClientInputError) -> (error: PageError) {
        PageError::ClientInput(fault)
    }
}

impl FromSpecImpl<ClientInputError> for PageError {
    open spec fn obeys_from_spec() -> bool {
        true
    }

    open spec fn from_spec(fault: ClientInputError) -> PageError {
        PageError::ClientInput(fault)
    }
}

impl From<StorageError> for PageError {
    fn from(failure: StorageError) -> (error: PageError) {
        PageError::Storage(failure)
    }
}

impl FromSpecImpl<StorageError> for PageError {
    open spec fn obeys_from_spec() -> bool {
        true
    }

    open spec fn from_spec(failure: StorageError) -> PageError {
        PageError::Storage(failure)
    }
}

} // verus!
