//! The failures a caller of the link can observe.

use vstd::prelude::*;

verus! {

/// Why an operation on the link failed.
#[derive(Clone, Copy, Debug, PartialEq, Eq, Structural)]
pub enum Error {
    /// The prompt or the command echo was not seen in time while connecting.
    HandshakeTimeout,
    /// The background tasks are gone: nothing can be received or enqueued.
    TransportClosed,
    /// A write was enqueued but its completion signal vanished unresolved.
    BrokenPipe,
    /// The byte stream itself reported a failure.
    Io,
}

/// What an error says of itself.
pub open spec fn message_of(error: Error) -> Seq<char> {
    match error {
        Error::HandshakeTimeout => "Timed out waiting for the device's shell"@,
        Error::TransportClosed => "The transport has been closed"@,
        Error::BrokenPipe => "The callback channel has been closed"@,
        Error::Io => "The serial stream failed"@,
    }
}

impl Error {
    /// A sentence for people that says what went wrong.
    pub fn message(&self) -> (text: &'static str)
        ensures
            text@ == message_of(*self),
    {
        match self {
            Error::HandshakeTimeout => "Timed out waiting for the device's shell",
            Error::TransportClosed => "The transport has been closed",
            Error::BrokenPipe => "The callback channel has been closed",
            Error::Io => "The serial stream failed",
        }
    }
}

} // verus!
