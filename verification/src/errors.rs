//! Error types of the quote generator and of the quote server.

use std::io;
use vstd::prelude::*;
use vstd::std_specs::convert::FromSpecImpl;

verus! {

/// `std::io::Error`, carried through the error types as an opaque value.
#[verifier::external_type_specification]
#[verifier::external_body]
pub struct ExIoError(io::Error);

/// Errors of loading the quote generator.
#[derive(Debug)]
pub enum StockGeneratorError {
    NoSuchFile(io::Error),
}

impl From<io::Error> for StockGeneratorError {
    fn from(value: io::Error) -> (r: Self) {
        Self::NoSuchFile(value)
    }
}

impl FromSpecImpl<io::Error> for StockGeneratorError {
    open spec fn obeys_from_spec() -> bool {
        true
    }

    open spec fn from_spec(v: io::Error) -> Self {
        StockGeneratorError::NoSuchFile(v)
    }
}

/// Errors of the quote server.
#[derive(Debug)]
pub enum ServerError {
    TCPBindingFailed(io::Error),
    UDPBindingFailed(io::Error),
    CloningStreamFailed(io::Error),
    StreamReadingError,
    UDPAddrParsingError(String),
    UDPTicketParsingError(String),
    UnknownCommandError(String),
}

/// What a `ServerError` says: its variant, and the message where it has one.
pub enum ServerErrorView {
    TCPBindingFailed,
    UDPBindingFailed,
    CloningStreamFailed,
    StreamReadingError,
    UDPAddrParsingError(Seq<char>),
    UDPTicketParsingError(Seq<char>),
    UnknownCommandError(Seq<char>),
}

impl View for ServerError {
    type V = ServerErrorView;

    open spec fn view(&self) -> ServerErrorView {
        match self {
            ServerError::TCPBindingFailed(_) => ServerErrorView::TCPBindingFailed,
            ServerError::UDPBindingFailed(_) => ServerErrorView::UDPBindingFailed,
            ServerError::CloningStreamFailed(_) => ServerErrorView::CloningStreamFailed,
            ServerError::StreamReadingError => ServerErrorView::StreamReadingError,
            ServerError::UDPAddrParsingError(m) => ServerErrorView::UDPAddrParsingError(m@),
            ServerError::UDPTicketParsingError(m) => ServerErrorView::UDPTicketParsingError(m@),
            ServerError::UnknownCommandError(m) => ServerErrorView::UnknownCommandError(m@),
        }
    }
}

impl From<io::Error> for ServerError {
    fn from(value: io::Error) -> (r: Self) {
        Self::TCPBindingFailed(value)
    }
}

impl FromSpecImpl<io::Error> for ServerError {
    open spec fn obeys_from_spec() -> bool {
        true
    }

    open spec fn from_spec(v: io::Error) -> Self {
        ServerError::TCPBindingFailed(v)
    }
}

} // verus!
