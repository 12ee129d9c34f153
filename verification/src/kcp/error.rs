//! What can go wrong.

use vstd::prelude::*;

verus! {

/// An error of the transport.
#[derive(Debug, PartialEq, Eq)]
pub enum KcpError {
    /// A read or a write took too long.
    IoTimeout,
    /// The listener is closed.
    ClosedListener,
    /// The connection is closed.
    ClosedConnection,
    /// The socket failed; the text says how.
    Io(String),
    /// Bytes that are no segment.
    InvalidSegment,
}

/// The result of an operation of the transport.
pub type Result<T> = core::result::Result<T, KcpError>;

impl KcpError {
    /// Whether the error is a timeout.
    pub fn is_timeout(&self) -> (b: bool)
        ensures
            b == (self is IoTimeout),
    {
        matches!(self, KcpError::IoTimeout)
    }

    /// The error in words.
    pub open spec fn text(&self) -> Seq<char> {
        match self {
            KcpError::IoTimeout => "Read/Write timeout"@,
            KcpError::ClosedListener => "Listener closed"@,
            KcpError::ClosedConnection => "Connection closed"@,
            KcpError::Io(detail) => "io error: "@ + detail@,
            KcpError::InvalidSegment => "invalid segment bytes"@,
        }
    }

    /// The error in words.
    pub fn message(&self) -> (s: String)
        ensures
            s@ == self.text(),
    {
        match self {
            KcpError::IoTimeout => "Read/Write timeout".to_owned(),
            KcpError::ClosedListener => "Listener closed".to_owned(),
            KcpError::ClosedConnection => "Connection closed".to_owned(),
            KcpError::Io(detail) => {
                let mut s = "io error: ".to_owned();
                s.append(detail.as_str());
                s
            },
            KcpError::InvalidSegment => "invalid segment bytes".to_owned(),
        }
    }
}

} // verus!
