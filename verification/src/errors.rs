//! The closed set of protocol-level failures.
//!
//! Every operation in this crate that can fail returns one of these kinds,
//! so callers can tell a protocol rejection from a transport problem (which
//! belongs to the I/O layer around this crate and never arises here).

use vstd::prelude::*;

verus! {

/// A protocol-level failure of a SOCKS handshake or codec operation.
#[derive(Clone, Copy, Debug, PartialEq, Eq, Structural)]
pub enum SocksError {
    /// A username or password longer than 255 bytes was supplied.
    InvalidCredentials,
    /// The peer spoke a different protocol version than expected.
    ProtocolVersionMismatch,
    /// The proxy selected an authentication method this client does not support.
    UnsupportedAuthMethod,
    /// The proxy accepted none of the offered authentication methods.
    NoAcceptableAuthMethod,
    /// The proxy demands authentication but no credentials are configured.
    AuthenticationRequired,
    /// The proxy rejected the supplied credentials.
    AuthenticationFailed,
    /// A frame read from the wire could not be decoded.
    MalformedFrame,
    /// The proxy's reply reported that the request did not succeed.
    RequestRejected,
    /// The initial data exceeds the limit the protocol allows.
    InitialDataTooLarge,
}

impl SocksError {
    /// A short human-readable description, for callers that report failures.
    pub fn message(&self) -> &'static str {
        match self {
            SocksError::InvalidCredentials => "username and password must be at most 255 bytes each",
            SocksError::ProtocolVersionMismatch => "peer uses a different protocol version",
            SocksError::UnsupportedAuthMethod => "proxy selected an unsupported authentication method",
            SocksError::NoAcceptableAuthMethod => "proxy accepted none of the offered authentication methods",
            SocksError::AuthenticationRequired => "proxy demands authentication but no credentials are configured",
            SocksError::AuthenticationFailed => "authentication with the provided credentials failed",
            SocksError::MalformedFrame => "received a malformed frame",
            SocksError::RequestRejected => "proxy reported that the request did not succeed",
            SocksError::InitialDataTooLarge => "initial data exceeds the protocol limit",
        }
    }
}

} // verus!
