//! The SOCKS5 wire codec and the outbound client handshake.
//!
//! The client drives the protocol over an already-connected byte stream.
//! Each phase is a function from the bytes of the peer's last message to
//! either the next frame to send or the handshake's outcome; the I/O layer
//! around this crate performs the sends and reads and feeds the bytes back.

use vstd::prelude::*;

use crate::addresses::{addr_decoded, creds_decoded, decode_credentials, encode_credentials_into,
    Address, AddressView, Credentials, CredentialsView, decode_address};
use crate::errors::SocksError;

verus! {

/// The SOCKS5 protocol version byte.
pub const SOCKS_VER_5: u8 = 5;
/// The username/password sub-negotiation version byte.
pub const SOCKS_AUTH_VER: u8 = 1;
/// Method: no authentication required.
pub const SOCKS_AUTH_NOT_REQUIRED: u8 = 0;
/// Method: username/password authentication.
pub const SOCKS_AUTH_USERNAME_PASSWORD: u8 = 2;
/// Method-selection reply: no offered method is acceptable.
pub const SOCKS_AUTH_NO_ACCEPTABLE: u8 = 255;
/// Sub-negotiation status: success.
pub const SOCKS_AUTH_SUCCESS: u8 = 0;
/// Command: establish a TCP relay.
pub const SOCKS_CMD_CONNECT: u8 = 1;
/// Reply code: request succeeded.
pub const SOCKS_REPLY_SUCCESS: u8 = 0;

/// The greeting: version, method count, then the offered methods —
/// no-auth alone, or no-auth plus username/password when credentials
/// are configured.
pub open spec fn greeting_encoded(with_auth: bool) -> Seq<u8> {
    if with_auth {
        seq![SOCKS_VER_5, 2u8, SOCKS_AUTH_NOT_REQUIRED, SOCKS_AUTH_USERNAME_PASSWORD]
    } else {
        seq![SOCKS_VER_5, 1u8, SOCKS_AUTH_NOT_REQUIRED]
    }
}

/// What the two-byte method-selection reply means to a client that did or
/// did not configure credentials.
pub open spec fn method_selection_result(version: u8, method: u8, has_credentials: bool)
    -> Result<u8, SocksError>
{
    if version != SOCKS_VER_5 {
        Err(SocksError::ProtocolVersionMismatch)
    } else if method == SOCKS_AUTH_NOT_REQUIRED {
        Ok(method)
    } else if method == SOCKS_AUTH_USERNAME_PASSWORD {
        if has_credentials {
            Ok(method)
        } else {
            Err(SocksError::AuthenticationRequired)
        }
    } else if method == SOCKS_AUTH_NO_ACCEPTABLE {
        Err(SocksError::NoAcceptableAuthMethod)
    } else {
        Err(SocksError::UnsupportedAuthMethod)
    }
}

/// The username/password sub-negotiation frame: version, then the
/// length-prefixed fields.
pub open spec fn auth_frame_encoded(c: CredentialsView) -> Seq<u8> {
    seq![SOCKS_AUTH_VER] + c.encoded()
}

/// The credentials carried by exactly the whole of `s`, or `None` when `s`
/// is not a well-formed sub-negotiation frame.
pub open spec fn auth_frame_decoded(s: Seq<u8>) -> Option<CredentialsView> {
    if s.len() < 1 || s[0] != SOCKS_AUTH_VER {
        None
    } else {
        creds_decoded(s.skip(1))
    }
}

/// Encoding then decoding the sub-negotiation frame recovers the
/// credentials exactly.
pub proof fn lemma_auth_frame_round_trip(c: CredentialsView)
    requires
        c.wf(),
    ensures
        auth_frame_decoded(auth_frame_encoded(c)) == Some(c),
{
    crate::addresses::lemma_creds_round_trip(c);
    assert(auth_frame_encoded(c).skip(1) =~= c.encoded());
}

/// Builds the sub-negotiation frame for `c`.
pub fn encode_auth_frame(c: &Credentials) -> (r: Vec<u8>)
    requires
        c@.wf(),
    ensures
        r@ == auth_frame_encoded(c@),
{
    let mut out: Vec<u8> = Vec::new();
    out.push(SOCKS_AUTH_VER);
    encode_credentials_into(c, &mut out);
    proof {
        assert(out@ =~= auth_frame_encoded(c@));
    }
    out
}

/// Reads the credentials from a whole sub-negotiation frame. Fails exactly
/// when the frame is malformed.
pub fn decode_auth_frame(s: &Vec<u8>) -> (r: Result<Credentials, SocksError>)
    ensures
        match r {
            Ok(c) => {
                &&& c@.wf()
                &&& auth_frame_decoded(s@) == Some(c@)
            },
            Err(e) => {
                &&& e == SocksError::MalformedFrame
                &&& auth_frame_decoded(s@) is None
            },
        },
{
    if s.len() < 1 {
        return Err(SocksError::MalformedFrame);
    }
    if s[0] != SOCKS_AUTH_VER {
        return Err(SocksError::MalformedFrame);
    }
    decode_credentials(s, 1)
}

/// What the two-byte sub-negotiation reply means.
pub open spec fn auth_reply_result(version: u8, status: u8) -> Result<(), SocksError> {
    if version != SOCKS_AUTH_VER {
        Err(SocksError::ProtocolVersionMismatch)
    } else if status != SOCKS_AUTH_SUCCESS {
        Err(SocksError::AuthenticationFailed)
    } else {
        Ok(())
    }
}

/// The request frame: version, command, a reserved zero byte, then the
/// destination address.
pub open spec fn request_encoded(command: u8, destination: AddressView) -> Seq<u8> {
    seq![SOCKS_VER_5, command, 0u8] + destination.encoded()
}

/// A SOCKS5 request: a command applied to a destination address.
#[derive(Clone, Debug)]
pub struct Socks5Request {
    pub command: u8,
    pub destination: Address,
}

impl Socks5Request {
    /// Packages a command and its destination.
    pub fn new(command: u8, destination: Address) -> (r: Self)
        ensures
            r.command == command,
            r.destination@ == destination@,
    {
        Socks5Request { command, destination }
    }

    /// The request's wire form.
    pub fn into_socks_bytes(&self) -> (r: Vec<u8>)
        requires
            self.destination@.wf(),
        ensures
            r@ == request_encoded(self.command, self.destination@),
    {
        let mut out: Vec<u8> = Vec::new();
        out.push(SOCKS_VER_5);
        out.push(self.command);
        out.push(0u8);
        self.destination.encode_into(&mut out);
        proof {
            assert(out@ =~= request_encoded(self.command, self.destination@));
        }
        out
    }
}

/// The reply frame: version, reply code, a reserved zero byte, then the
/// bound address.
pub open spec fn reply_encoded(reply_code: u8, bound: AddressView) -> Seq<u8> {
    seq![SOCKS_VER_5, reply_code, 0u8] + bound.encoded()
}

/// The reply code and bound address carried by exactly the whole of `s`,
/// or `None` when `s` is not a well-formed reply frame.
pub open spec fn reply_decoded(s: Seq<u8>) -> Option<(u8, AddressView)> {
    if s.len() < 3 || s[0] != SOCKS_VER_5 || s[2] != 0 {
        None
    } else {
        match addr_decoded(s.skip(3)) {
            Some((a, n)) => if s.len() == 3 + n {
                Some((s[1], a))
            } else {
                None
            },
            None => None,
        }
    }
}

/// Encoding then decoding the reply frame recovers code and address exactly.
pub proof fn lemma_reply_round_trip(reply_code: u8, bound: AddressView)
    requires
        bound.wf(),
    ensures
        reply_decoded(reply_encoded(reply_code, bound)) == Some((reply_code, bound)),
{
    let s = reply_encoded(reply_code, bound);
    assert(s.skip(3) =~= bound.encoded() + Seq::<u8>::empty());
    crate::addresses::lemma_addr_round_trip(bound, Seq::<u8>::empty());
}

/// Builds the reply frame for `reply_code` and `bound`.
pub fn encode_reply(reply_code: u8, bound: &Address) -> (r: Vec<u8>)
    requires
        bound@.wf(),
    ensures
        r@ == reply_encoded(reply_code, bound@),
{
    let mut out: Vec<u8> = Vec::new();
    out.push(SOCKS_VER_5);
    out.push(reply_code);
    out.push(0u8);
    bound.encode_into(&mut out);
    proof {
        assert(out@ =~= reply_encoded(reply_code, bound@));
    }
    out
}

/// Reads the reply code and bound address from a whole reply frame. Fails
/// exactly when the frame is malformed.
pub fn decode_reply(s: &Vec<u8>) -> (r: Result<(u8, Address), SocksError>)
    ensures
        match r {
            Ok(p) => {
                &&& p.1@.wf()
                &&& reply_decoded(s@) == Some((p.0, p.1@))
            },
            Err(e) => {
                &&& e == SocksError::MalformedFrame
                &&& reply_decoded(s@) is None
            },
        },
{
    let n = s.len();
    if n < 3 {
        return Err(SocksError::MalformedFrame);
    }
    if s[0] != SOCKS_VER_5 || s[2] != 0 {
        return Err(SocksError::MalformedFrame);
    }
    proof {
        assert(s@.skip(3) =~= s@.subrange(3, n as int));
    }
    match decode_address(s, 3) {
        Ok((a, end)) => {
            if end != n {
                proof {
                    assert(addr_decoded(s@.skip(3)) == Some((a@, end - 3)));
                }
                return Err(SocksError::MalformedFrame);
            }
            Ok((s[1], a))
        }
        Err(e) => Err(e),
    }
}

/// An outbound SOCKS5 client: the proxy endpoint it will be connected to
/// and the credentials it may authenticate with.
#[derive(Clone, Debug)]
pub struct Socks5Client {
    pub proxy_host: Vec<u8>,
    pub proxy_port: u16,
    pub credentials: Option<Credentials>,
}

impl Socks5Client {
    /// Whether credentials are configured.
    pub open spec fn spec_has_credentials(self) -> bool {
        self.credentials is Some
    }

    /// Whether the configured credentials (if any) fit the protocol's
    /// one-byte length fields.
    pub open spec fn credentials_ok(self) -> bool {
        match self.credentials {
            Some(c) => c@.wf(),
            None => true,
        }
    }

    /// Creates a client for the proxy at `proxy_host:proxy_port`.
    pub fn new(proxy_host: Vec<u8>, proxy_port: u16, credentials: Option<Credentials>) -> (r: Self)
        ensures
            r.proxy_host@ == proxy_host@,
            r.proxy_port == proxy_port,
            r.credentials == credentials,
    {
        Socks5Client { proxy_host, proxy_port, credentials }
    }

    /// Whether credentials are configured.
    pub fn has_credentials(&self) -> (r: bool)
        ensures
            r == self.spec_has_credentials(),
    {
        self.credentials.is_some()
    }

    /// Checks the credential length invariants. This runs before any byte
    /// is sent: a client with an oversized username or password never
    /// opens a connection.
    pub fn validate(&self) -> (r: Result<(), SocksError>)
        ensures
            r is Ok <==> self.credentials_ok(),
            r is Err ==> r == Err::<(), SocksError>(SocksError::InvalidCredentials),
    {
        match &self.credentials {
            Some(c) => {
                if c.username.len() > 255 || c.password.len() > 255 {
                    Err(SocksError::InvalidCredentials)
                } else {
                    Ok(())
                }
            }
            None => Ok(()),
        }
    }

    /// The greeting frame this client opens the handshake with.
    pub fn greeting(&self) -> (r: Vec<u8>)
        ensures
            r@ == greeting_encoded(self.spec_has_credentials()),
    {
        let mut out: Vec<u8> = Vec::new();
        out.push(SOCKS_VER_5);
        if self.credentials.is_some() {
            out.push(2u8);
            out.push(SOCKS_AUTH_NOT_REQUIRED);
            out.push(SOCKS_AUTH_USERNAME_PASSWORD);
        } else {
            out.push(1u8);
            out.push(SOCKS_AUTH_NOT_REQUIRED);
        }
        proof {
            assert(out@ =~= greeting_encoded(self.spec_has_credentials()));
        }
        out
    }

    /// Interprets the proxy's two-byte method selection. In particular: a
    /// selection of `0xFF` fails with `NoAcceptableAuthMethod`, and a
    /// demand for username/password authentication without configured
    /// credentials fails with `AuthenticationRequired` — in both cases the
    /// handshake is over and nothing further may be sent.
    pub fn on_method_selection(&self, version: u8, method: u8) -> (r: Result<u8, SocksError>)
        ensures
            r == method_selection_result(version, method, self.spec_has_credentials()),
            version == SOCKS_VER_5 && method == SOCKS_AUTH_NO_ACCEPTABLE
                ==> r == Err::<u8, SocksError>(SocksError::NoAcceptableAuthMethod),
            version == SOCKS_VER_5 && method == SOCKS_AUTH_USERNAME_PASSWORD
                && !self.spec_has_credentials()
                ==> r == Err::<u8, SocksError>(SocksError::AuthenticationRequired),
    {
        if version != SOCKS_VER_5 {
            Err(SocksError::ProtocolVersionMismatch)
        } else if method == SOCKS_AUTH_NOT_REQUIRED {
            Ok(method)
        } else if method == SOCKS_AUTH_USERNAME_PASSWORD {
            if self.credentials.is_some() {
                Ok(method)
            } else {
                Err(SocksError::AuthenticationRequired)
            }
        } else if method == SOCKS_AUTH_NO_ACCEPTABLE {
            Err(SocksError::NoAcceptableAuthMethod)
        } else {
            Err(SocksError::UnsupportedAuthMethod)
        }
    }

    /// The sub-negotiation frame carrying this client's credentials; only
    /// meaningful after the proxy selected username/password.
    pub fn auth_frame(&self) -> (r: Result<Vec<u8>, SocksError>)
        ensures
            match r {
                Ok(v) => {
                    &&& self.credentials matches Some(c) && c@.wf()
                    &&& v@ == auth_frame_encoded(self.credentials->Some_0@)
                },
                Err(e) => {
                    &&& !(self.spec_has_credentials() && self.credentials_ok())
                    &&& e == (if self.spec_has_credentials() {
                        SocksError::InvalidCredentials
                    } else {
                        SocksError::AuthenticationRequired
                    })
                },
            },
    {
        match &self.credentials {
            Some(c) => {
                if c.username.len() > 255 || c.password.len() > 255 {
                    Err(SocksError::InvalidCredentials)
                } else {
                    Ok(encode_auth_frame(c))
                }
            }
            None => Err(SocksError::AuthenticationRequired),
        }
    }

    /// Interprets the proxy's two-byte sub-negotiation reply.
    pub fn on_auth_reply(&self, version: u8, status: u8) -> (r: Result<(), SocksError>)
        ensures
            r == auth_reply_result(version, status),
    {
        if version != SOCKS_AUTH_VER {
            Err(SocksError::ProtocolVersionMismatch)
        } else if status != SOCKS_AUTH_SUCCESS {
            Err(SocksError::AuthenticationFailed)
        } else {
            Ok(())
        }
    }

    /// The CONNECT request frame for `destination`.
    pub fn connect_request(&self, destination: Address) -> (r: Vec<u8>)
        requires
            destination@.wf(),
        ensures
            r@ == request_encoded(SOCKS_CMD_CONNECT, destination@),
    {
        let request = Socks5Request::new(SOCKS_CMD_CONNECT, destination);
        request.into_socks_bytes()
    }

    /// Interprets the proxy's whole reply frame: the bound address on
    /// success, the exact failure otherwise.
    pub fn on_reply(&self, s: &Vec<u8>) -> (r: Result<Address, SocksError>)
        ensures
            match r {
                Ok(a) => {
                    &&& a@.wf()
                    &&& reply_decoded(s@) == Some((SOCKS_REPLY_SUCCESS, a@))
                },
                Err(e) => match reply_decoded(s@) {
                    Some(p) => p.0 != SOCKS_REPLY_SUCCESS && e == SocksError::RequestRejected,
                    None => e == SocksError::MalformedFrame,
                },
            },
    {
        match decode_reply(s) {
            Ok((code, a)) => {
                if code == SOCKS_REPLY_SUCCESS {
                    Ok(a)
                } else {
                    Err(SocksError::RequestRejected)
                }
            }
            Err(e) => Err(e),
        }
    }
}

} // verus!
