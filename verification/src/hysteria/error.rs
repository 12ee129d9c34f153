//! What can go wrong.

use vstd::prelude::*;

use crate::text::{decimal, join, push_decimal};

verus! {

/// An error of the transport.
#[derive(Debug, PartialEq, Eq)]
pub enum HysteriaError {
    /// There are no settings for TLS.
    MissingTlsConfig,
    /// There is nothing to check a client's secret with.
    MissingValidator,
    /// The address is a name, not a number.
    AddressIsDomain,
    /// No way to answer strangers has that name.
    UnknownMasqType(String),
    /// The server has answered with that status.
    AuthFailed(u16),
    /// No congestion control has that name.
    UnsupportedCongestionType(String),
    /// No profile has that name.
    UnsupportedBbrProfile(String),
    /// The connection is closed.
    ConnectionClosed,
    /// Ports cannot be changed that way.
    InvalidUdpHop(String),
    /// The socket failed; the text says how.
    Io(String),
}

/// The result of an operation of the transport.
pub type Result<T> = core::result::Result<T, HysteriaError>;

impl HysteriaError {
    /// The error in words.
    pub open spec fn text(&self) -> Seq<char> {
        match self {
            HysteriaError::MissingTlsConfig => "tls config is nil"@,
            HysteriaError::MissingValidator => "validator is nil"@,
            HysteriaError::AddressIsDomain => "address is domain"@,
            HysteriaError::UnknownMasqType(name) => "unknown masq type: "@ + name@,
            HysteriaError::AuthFailed(code) => "auth failed code "@ + decimal(*code as nat),
            HysteriaError::UnsupportedCongestionType(name) => "unsupported congestion type: "@
                + name@,
            HysteriaError::UnsupportedBbrProfile(name) => "unsupported BBR profile: "@ + name@,
            HysteriaError::ConnectionClosed => "connection closed"@,
            HysteriaError::InvalidUdpHop(detail) => "invalid udphop parameters: "@ + detail@,
            HysteriaError::Io(detail) => "io error: "@ + detail@,
        }
    }

    /// The error in words.
    pub fn message(&self) -> (s: String)
        ensures
            s@ == self.text(),
    {
        match self {
            HysteriaError::MissingTlsConfig => "tls config is nil".to_owned(),
            HysteriaError::MissingValidator => "validator is nil".to_owned(),
            HysteriaError::AddressIsDomain => "address is domain".to_owned(),
            HysteriaError::UnknownMasqType(name) => join("unknown masq type: ", name.as_str()),
            HysteriaError::AuthFailed(code) => {
                let mut s: String = "auth failed code ".to_owned();
                push_decimal(&mut s, *code as u64);
                s
            },
            HysteriaError::UnsupportedCongestionType(name) => join(
                "unsupported congestion type: ",
                name.as_str(),
            ),
            HysteriaError::UnsupportedBbrProfile(name) => join(
                "unsupported BBR profile: ",
                name.as_str(),
            ),
            HysteriaError::ConnectionClosed => "connection closed".to_owned(),
            HysteriaError::InvalidUdpHop(detail) => join(
                "invalid udphop parameters: ",
                detail.as_str(),
            ),
            HysteriaError::Io(detail) => join("io error: ", detail.as_str()),
        }
    }
}

} // verus!
