//! Errors.
use vstd::prelude::*;

verus! {

/// Why an operation failed, with a message for the reader.
#[derive(Debug)]
pub enum Error {
    /// A request that cannot be answered as it stands.
    Generic(String),
    /// The other side of a swap did not keep to the agreed terms.
    Protocol(String),
}

/// An error with its message as a sequence of characters.
pub enum ErrorView {
    Generic(Seq<char>),
    Protocol(Seq<char>),
}

impl ErrorView {
    /// The message.
    pub open spec fn message(self) -> Seq<char> {
        match self {
            ErrorView::Generic(m) => m,
            ErrorView::Protocol(m) => m,
        }
    }
}

impl View for Error {
    type V = ErrorView;

    open spec fn view(&self) -> ErrorView {
        match self {
            Error::Generic(m) => ErrorView::Generic(m@),
            Error::Protocol(m) => ErrorView::Protocol(m@),
        }
    }
}

impl Error {
    /// The message of this error.
    pub fn to_string(&self) -> (message: String)
        ensures
            message@ == self@.message(),
            match *self {
                Error::Generic(m) => message@ == m@,
                Error::Protocol(m) => message@ == m@,
            },
    {
        match self {
            Error::Generic(m) => m.clone(),
            Error::Protocol(m) => m.clone(),
        }
    }
}

} // verus!
