//! The error kinds that the multiplexer reports.
use vstd::prelude::*;

verus! {

/// Why an operation of the multiplexer did not succeed.
#[derive(Clone, Copy, Debug, PartialEq, Eq, Structural)]
pub enum ErrorKind {
    /// The socket or TLS connection could not be established, or was lost.
    ConnectionFailed,
    /// The peer speaks an incompatible protocol version.
    HandshakeFailed,
    /// The peer sent a malformed or unexpected message.
    ProtocolError,
    /// The local process could not be launched, or the remote side refused.
    SpawnFailed,
    /// A domain with the same identifier is already registered.
    DuplicateDomain,
    /// No domain with the given identifier is registered.
    UnknownDomain,
    /// No window with the given identifier exists.
    UnknownWindow,
}

impl ErrorKind {
    /// Startup cannot go on after a fatal error; every other error is
    /// reported and leaves the multiplexer usable.
    pub open spec fn fatal(&self) -> bool {
        *self == ErrorKind::DuplicateDomain
    }

    pub fn is_fatal(&self) -> (r: bool)
        ensures
            r == self.fatal(),
    {
        match self {
            ErrorKind::DuplicateDomain => true,
            _ => false,
        }
    }

    /// The name of the error kind, for messages.
    pub open spec fn name_view(&self) -> Seq<char> {
        match *self {
            ErrorKind::ConnectionFailed => "ConnectionFailed"@,
            ErrorKind::HandshakeFailed => "HandshakeFailed"@,
            ErrorKind::ProtocolError => "ProtocolError"@,
            ErrorKind::SpawnFailed => "SpawnFailed"@,
            ErrorKind::DuplicateDomain => "DuplicateDomain"@,
            ErrorKind::UnknownDomain => "UnknownDomain"@,
            ErrorKind::UnknownWindow => "UnknownWindow"@,
        }
    }

    /// The name of the error kind, for messages.
    pub fn name(&self) -> (s: &'static str)
        ensures
            s@ == self.name_view(),
    {
        match self {
            ErrorKind::ConnectionFailed => "ConnectionFailed",
            ErrorKind::HandshakeFailed => "HandshakeFailed",
            ErrorKind::ProtocolError => "ProtocolError",
            ErrorKind::SpawnFailed => "SpawnFailed",
            ErrorKind::DuplicateDomain => "DuplicateDomain",
            ErrorKind::UnknownDomain => "UnknownDomain",
            ErrorKind::UnknownWindow => "UnknownWindow",
        }
    }
}

} // verus!
