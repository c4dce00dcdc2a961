//! The errors that the stream and listener operations report.

use vstd::prelude::*;

verus! {

/// Why an operation on a listener or a stream failed.
#[derive(Clone, Copy, Debug, PartialEq, Eq, Structural)]
pub enum NetError {
    /// The port already has a listener.
    AddrInUse,
    /// No connection stands behind the stream.
    ConnectionAborted,
    /// The send queue is full.
    WouldBlock,
    /// The connection is already closed.
    NotConnected,
}

impl NetError {
    /// The text that goes with the error.
    pub open spec fn spec_message(self) -> Seq<char> {
        match self {
            NetError::AddrInUse => "port already bound"@,
            NetError::ConnectionAborted => "stream was terminated unexpectedly"@,
            NetError::WouldBlock => "too many bytes buffered"@,
            NetError::NotConnected => "already closed"@,
        }
    }

    /// The text that goes with the error.
    pub fn message(&self) -> (text: &'static str)
        ensures
            text@ == self.spec_message(),
    {
        match self {
            NetError::AddrInUse => "port already bound",
            NetError::ConnectionAborted => "stream was terminated unexpectedly",
            NetError::WouldBlock => "too many bytes buffered",
            NetError::NotConnected => "already closed",
        }
    }
}

} // verus!
