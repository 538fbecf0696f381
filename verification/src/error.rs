//! What can go wrong.
use vstd::prelude::*;

verus! {

/// The kind of an [`Error`], as `std::io::ErrorKind` names it.
#[derive(Clone, Copy, Debug, PartialEq, Eq, Structural)]
pub enum ErrorKind {
    NotConnected,
    TimedOut,
    InvalidInput,
    Other,
}

/// An error that the library raises. What the operating system reports is handed
/// through by the caller as it is, and stands here as `System`.
#[derive(Clone, Copy, Debug, PartialEq, Eq, Structural)]
pub enum Error {
    /// The other side has closed the socket.
    SocketClosed,
    /// Nothing could be read in time.
    ReadTimeout,
    /// Nothing could be written in time.
    WriteTimeout,
    /// The fiber has no plain TCP socket to turn into a TLS stream.
    InvalidSocket,
    /// The fiber has no socket that this works on.
    NoSocket,
    /// A listening socket can not be read.
    ListenRead,
    /// A listening socket can not be written.
    ListenWrite,
    /// A listening socket can not be flushed.
    ListenFlush,
    /// Only a listening socket accepts.
    NotListening,
    /// The TLS handshake has failed.
    TlsFailure,
    /// There is no domain to resolve.
    EmptyDomain,
    /// The name of the host can not be put into a question.
    BadHost,
    /// There are as many runners as there can be.
    NoSpace,
    /// The thread has a poller.
    PollerExists,
    /// A call into the operating system has failed.
    System,
}

impl Error {
    /// The kind of the error.
    pub open spec fn spec_kind(self) -> ErrorKind {
        match self {
            Error::SocketClosed | Error::PollerExists => ErrorKind::NotConnected,
            Error::ReadTimeout | Error::WriteTimeout => ErrorKind::TimedOut,
            Error::InvalidSocket
            | Error::NoSocket
            | Error::ListenRead
            | Error::ListenWrite
            | Error::ListenFlush
            | Error::NotListening
            | Error::BadHost => ErrorKind::InvalidInput,
            Error::TlsFailure | Error::EmptyDomain | Error::NoSpace | Error::System => ErrorKind::Other,
        }
    }

    /// The error in words.
    pub open spec fn text(self) -> Seq<char> {
        match self {
            Error::SocketClosed => "socket closed"@,
            Error::ReadTimeout => "read timeout"@,
            Error::WriteTimeout => "write timeout"@,
            Error::InvalidSocket => "invalid socket"@,
            Error::NoSocket => "no socket"@,
            Error::ListenRead => "can not read on listen socket"@,
            Error::ListenWrite => "can not write on listen socket"@,
            Error::ListenFlush => "can not flush on listen socket"@,
            Error::NotListening => "can not accept on non listen socket"@,
            Error::TlsFailure => "tls failure"@,
            Error::EmptyDomain => "empty domain"@,
            Error::BadHost => "bad host name"@,
            Error::NoSpace => "no space"@,
            Error::PollerExists => "poller exists"@,
            Error::System => "system error"@,
        }
    }

    /// The kind of the error.
    pub fn kind(&self) -> (kind: ErrorKind)
        ensures
            kind == self.spec_kind(),
    {
        match self {
            Error::SocketClosed | Error::PollerExists => ErrorKind::NotConnected,
            Error::ReadTimeout | Error::WriteTimeout => ErrorKind::TimedOut,
            Error::InvalidSocket
            | Error::NoSocket
            | Error::ListenRead
            | Error::ListenWrite
            | Error::ListenFlush
            | Error::NotListening
            | Error::BadHost => ErrorKind::InvalidInput,
            Error::TlsFailure | Error::EmptyDomain | Error::NoSpace | Error::System => ErrorKind::Other,
        }
    }

    /// The error in words.
    pub fn message(&self) -> (text: &'static str)
        ensures
            text@ == self.text(),
    {
        match self {
            Error::SocketClosed => "socket closed",
            Error::ReadTimeout => "read timeout",
            Error::WriteTimeout => "write timeout",
            Error::InvalidSocket => "invalid socket",
            Error::NoSocket => "no socket",
            Error::ListenRead => "can not read on listen socket",
            Error::ListenWrite => "can not write on listen socket",
            Error::ListenFlush => "can not flush on listen socket",
            Error::NotListening => "can not accept on non listen socket",
            Error::TlsFailure => "tls failure",
            Error::EmptyDomain => "empty domain",
            Error::BadHost => "bad host name",
            Error::NoSpace => "no space",
            Error::PollerExists => "poller exists",
            Error::System => "system error",
        }
    }
}

} // verus!
