//! The SOCKS6 wire codec and the outbound client handshake.
//!
//! A request travels as version, command, the length of the initial data
//! that follows it, the destination address, and an option list; a reply
//! mirrors it without the initial-data field. The client advertises its
//! authentication methods in an option rather than negotiating them in a
//! separate exchange, and may send payload bytes immediately after the
//! request, ahead of the proxy's reply.

use vstd::prelude::*;

use crate::addresses::{addr_decoded, decode_address, lemma_addr_round_trip, Address, AddressView, Credentials};
use crate::bytes::{be16, be16_val, lemma_be16_round_trip, push_all, push_be16, read_be16};
use crate::errors::SocksError;
use crate::options::{decode_options, encode_options_into, lemma_options_decoded_inverse,
    lemma_options_encoded_push, lemma_options_round_trip, option_views, options_encoded,
    options_decoded, options_wf, SocksOption, SocksOptionView};
use crate::socks5::{SOCKS_AUTH_USERNAME_PASSWORD, SOCKS_CMD_CONNECT};

verus! {

/// The SOCKS6 protocol version byte.
pub const SOCKS_VER_6: u8 = 6;
/// Authentication-acknowledgment status: no authentication required.
pub const SOCKS6_AUTH_SUCCESS: u8 = 0;
/// Reply code: request succeeded.
pub const SOCKS6_REPLY_SUCCESS: u8 = 0;
/// Reply code: connection refused.
pub const SOCKS6_REPLY_CONNECTION_REFUSED: u8 = 1;
/// The most initial-data bytes a request may announce: 16384 (2 to the 14th).
pub const SOCKS_MAX_INITIAL_DATA: usize = 16384;

/// A SOCKS6 request: a command applied to a destination, the length of the
/// initial data that follows the request on the wire, and its options.
#[derive(Clone, Debug)]
pub struct Socks6Request {
    pub command: u8,
    pub destination: Address,
    pub initial_data_length: u16,
    pub options: Vec<SocksOption>,
}

/// The mathematical model of a [`Socks6Request`].
pub struct Socks6RequestView {
    pub command: u8,
    pub destination: AddressView,
    pub initial_data_length: u16,
    pub options: Seq<SocksOptionView>,
}

impl View for Socks6Request {
    type V = Socks6RequestView;

    open spec fn view(&self) -> Socks6RequestView {
        Socks6RequestView {
            command: self.command,
            destination: self.destination@,
            initial_data_length: self.initial_data_length,
            options: option_views(self.options@),
        }
    }
}

impl Socks6RequestView {
    /// The destination and every option are well-formed and the option list
    /// fits its two-byte length field.
    pub open spec fn wf(self) -> bool {
        &&& self.destination.wf()
        &&& options_wf(self.options)
        &&& options_encoded(self.options).len() <= 65535
    }
}

/// The request's wire form: version, command, destination, initial-data
/// length, then the length-prefixed option list.
pub open spec fn request_encoded(q: Socks6RequestView) -> Seq<u8> {
    seq![SOCKS_VER_6, q.command]
        + q.destination.encoded()
        + be16(q.initial_data_length)
        + be16(options_encoded(q.options).len() as u16)
        + options_encoded(q.options)
}

/// The request encoded as exactly the whole of `s`, or `None` when `s` is
/// not a well-formed request frame.
pub open spec fn request_decoded(s: Seq<u8>) -> Option<Socks6RequestView> {
    if s.len() < 2 || s[0] != SOCKS_VER_6 {
        None
    } else {
        let command = s[1];
        match addr_decoded(s.skip(2)) {
            Some((destination, n)) => {
                let p = 2 + n;
                if s.len() < p + 4 {
                    None
                } else {
                    let initial_data_length = be16_val(s[p], s[p + 1]);
                    let ol = be16_val(s[p + 2], s[p + 3]) as int;
                    if s.len() == p + 4 + ol {
                        match options_decoded(s.subrange(p + 4, p + 4 + ol)) {
                            Some(options) => Some(Socks6RequestView {
                                command,
                                destination,
                                initial_data_length,
                                options,
                            }),
                            None => None,
                        }
                    } else {
                        None
                    }
                }
            }
            None => None,
        }
    }
}

/// Encoding then decoding a request recovers it exactly.
pub proof fn lemma_request_round_trip(q: Socks6RequestView)
    requires
        q.wf(),
    ensures
        request_decoded(request_encoded(q)) == Some(q),
{
    let enc = q.destination.encoded();
    let oe = options_encoded(q.options);
    let ol16 = oe.len() as u16;
    let s = request_encoded(q);
    let a = seq![SOCKS_VER_6, q.command] + enc;
    assert(s =~= a + be16(q.initial_data_length) + be16(ol16) + oe);
    lemma_be16_round_trip(q.initial_data_length);
    lemma_be16_round_trip(ol16);
    assert(s.skip(2) =~= enc + (be16(q.initial_data_length) + be16(ol16) + oe));
    lemma_addr_round_trip(q.destination, be16(q.initial_data_length) + be16(ol16) + oe);
    let n = enc.len() as int;
    let p = 2 + n;
    assert(a.len() == p);
    assert(s[p] == be16(q.initial_data_length)[0] && s[p + 1] == be16(q.initial_data_length)[1]);
    assert(s[p + 2] == be16(ol16)[0] && s[p + 3] == be16(ol16)[1]);
    assert(s.subrange(p + 4, p + 4 + oe.len()) =~= oe);
    lemma_options_round_trip(q.options);
    assert(q == Socks6RequestView {
        command: q.command,
        destination: q.destination,
        initial_data_length: q.initial_data_length,
        options: q.options,
    });
}

impl Socks6Request {
    /// Packages a request.
    pub fn new(command: u8, destination: Address, initial_data_length: u16,
        options: Vec<SocksOption>) -> (r: Self)
        ensures
            r@ == (Socks6RequestView {
                command,
                destination: destination@,
                initial_data_length,
                options: option_views(options@),
            }),
    {
        Socks6Request { command, destination, initial_data_length, options }
    }

    /// The request's wire form.
    pub fn into_socks_bytes(&self) -> (r: Vec<u8>)
        requires
            self@.wf(),
        ensures
            r@ == request_encoded(self@),
    {
        let mut out: Vec<u8> = Vec::new();
        out.push(SOCKS_VER_6);
        out.push(self.command);
        self.destination.encode_into(&mut out);
        push_be16(&mut out, self.initial_data_length);
        let mut ob: Vec<u8> = Vec::new();
        encode_options_into(&self.options, &mut ob);
        push_be16(&mut out, ob.len() as u16);
        push_all(&mut out, &ob);
        proof {
            assert(out@ =~= request_encoded(self@));
        }
        out
    }
}

/// Reads a request from a whole frame. Fails exactly when the frame is
/// malformed.
pub fn decode_request(s: &Vec<u8>) -> (r: Result<Socks6Request, SocksError>)
    ensures
        match r {
            Ok(q) => {
                &&& q@.wf()
                &&& request_decoded(s@) == Some(q@)
            },
            Err(e) => {
                &&& e == SocksError::MalformedFrame
                &&& request_decoded(s@) is None
            },
        },
{
    let n = s.len();
    if n < 2 {
        return Err(SocksError::MalformedFrame);
    }
    if s[0] != SOCKS_VER_6 {
        return Err(SocksError::MalformedFrame);
    }
    let command = s[1];
    let (destination, p) = match decode_address(s, 2) {
        Ok(x) => x,
        Err(e) => {
            return Err(e);
        }
    };
    if n - p < 4 {
        return Err(SocksError::MalformedFrame);
    }
    let initial_data_length = read_be16(s, p);
    let ol = read_be16(s, p + 2) as usize;
    if n - p - 4 != ol {
        return Err(SocksError::MalformedFrame);
    }
    let options = match decode_options(s, p + 4, p + 4 + ol) {
        Ok(x) => x,
        Err(e) => {
            return Err(e);
        }
    };
    proof {
        lemma_options_decoded_inverse(s@.subrange(p + 4, p + 4 + ol as int));
    }
    Ok(Socks6Request { command, destination, initial_data_length, options })
}

/// The outcome a SOCKS6 reply reports.
#[derive(Clone, Copy, Debug, PartialEq, Eq, Structural)]
pub enum Socks6Reply {
    Success,
    ConnectionRefused,
}

impl Socks6Reply {
    /// The reply code carried on the wire.
    pub open spec fn spec_code(self) -> u8 {
        match self {
            Socks6Reply::Success => SOCKS6_REPLY_SUCCESS,
            Socks6Reply::ConnectionRefused => SOCKS6_REPLY_CONNECTION_REFUSED,
        }
    }

    /// The reply code carried on the wire.
    pub fn code(&self) -> (r: u8)
        ensures
            r == self.spec_code(),
    {
        match self {
            Socks6Reply::Success => SOCKS6_REPLY_SUCCESS,
            Socks6Reply::ConnectionRefused => SOCKS6_REPLY_CONNECTION_REFUSED,
        }
    }
}

/// The reply's wire form: version, reply code, bound address, then the
/// length-prefixed option list.
pub open spec fn reply_encoded(code: u8, bound: AddressView, opts: Seq<SocksOptionView>) -> Seq<u8> {
    seq![SOCKS_VER_6, code] + bound.encoded()
        + be16(options_encoded(opts).len() as u16)
        + options_encoded(opts)
}

/// The reply encoded as exactly the whole of `s`, or `None` when `s` is
/// not a well-formed reply frame.
pub open spec fn reply_decoded(s: Seq<u8>) -> Option<(u8, AddressView, Seq<SocksOptionView>)> {
    if s.len() < 2 || s[0] != SOCKS_VER_6 {
        None
    } else {
        let code = s[1];
        match addr_decoded(s.skip(2)) {
            Some((bound, n)) => {
                let p = 2 + n;
                if s.len() < p + 2 {
                    None
                } else {
                    let ol = be16_val(s[p], s[p + 1]) as int;
                    if s.len() == p + 2 + ol {
                        match options_decoded(s.subrange(p + 2, p + 2 + ol)) {
                            Some(opts) => Some((code, bound, opts)),
                            None => None,
                        }
                    } else {
                        None
                    }
                }
            }
            None => None,
        }
    }
}

/// Encoding then decoding a reply recovers it exactly.
pub proof fn lemma_reply_round_trip(code: u8, bound: AddressView, opts: Seq<SocksOptionView>)
    requires
        bound.wf(),
        options_wf(opts),
        options_encoded(opts).len() <= 65535,
    ensures
        reply_decoded(reply_encoded(code, bound, opts)) == Some((code, bound, opts)),
{
    let enc = bound.encoded();
    let oe = options_encoded(opts);
    let ol16 = oe.len() as u16;
    let s = reply_encoded(code, bound, opts);
    let a = seq![SOCKS_VER_6, code] + enc;
    assert(s =~= a + be16(ol16) + oe);
    lemma_be16_round_trip(ol16);
    assert(s.skip(2) =~= enc + (be16(ol16) + oe));
    lemma_addr_round_trip(bound, be16(ol16) + oe);
    let n = enc.len() as int;
    let p = 2 + n;
    assert(a.len() == p);
    assert(s[p] == be16(ol16)[0] && s[p + 1] == be16(ol16)[1]);
    assert(s.subrange(p + 2, p + 2 + oe.len()) =~= oe);
    lemma_options_round_trip(opts);
}

/// Builds the reply frame for `reply` with bound address `bound` and
/// options `opts`.
pub fn encode_reply(reply: &Socks6Reply, bound: &Address, opts: &Vec<SocksOption>) -> (r: Vec<u8>)
    requires
        bound@.wf(),
        options_wf(option_views(opts@)),
        options_encoded(option_views(opts@)).len() <= 65535,
    ensures
        r@ == reply_encoded(reply.spec_code(), bound@, option_views(opts@)),
{
    let mut out: Vec<u8> = Vec::new();
    out.push(SOCKS_VER_6);
    out.push(reply.code());
    bound.encode_into(&mut out);
    let mut ob: Vec<u8> = Vec::new();
    encode_options_into(opts, &mut ob);
    push_be16(&mut out, ob.len() as u16);
    push_all(&mut out, &ob);
    proof {
        assert(out@ =~= reply_encoded(reply.spec_code(), bound@, option_views(opts@)));
    }
    out
}

/// Reads the reply code, bound address and options from a whole reply
/// frame. Fails exactly when the frame is malformed.
pub fn decode_reply(s: &Vec<u8>) -> (r: Result<(u8, Address, Vec<SocksOption>), SocksError>)
    ensures
        match r {
            Ok(p) => {
                &&& p.1@.wf()
                &&& options_wf(option_views(p.2@))
                &&& reply_decoded(s@) == Some((p.0, p.1@, option_views(p.2@)))
            },
            Err(e) => {
                &&& e == SocksError::MalformedFrame
                &&& reply_decoded(s@) is None
            },
        },
{
    let n = s.len();
    if n < 2 {
        return Err(SocksError::MalformedFrame);
    }
    if s[0] != SOCKS_VER_6 {
        return Err(SocksError::MalformedFrame);
    }
    let code = s[1];
    let (bound, p) = match decode_address(s, 2) {
        Ok(x) => x,
        Err(e) => {
            return Err(e);
        }
    };
    if n - p < 2 {
        return Err(SocksError::MalformedFrame);
    }
    let ol = read_be16(s, p) as usize;
    if n - p - 2 != ol {
        return Err(SocksError::MalformedFrame);
    }
    let opts = match decode_options(s, p + 2, p + 2 + ol) {
        Ok(x) => x,
        Err(e) => {
            return Err(e);
        }
    };
    Ok((code, bound, opts))
}

/// The two-byte acknowledgment telling the peer no authentication is
/// required.
pub open spec fn auth_ack_encoded() -> Seq<u8> {
    seq![SOCKS_VER_6, SOCKS6_AUTH_SUCCESS]
}

/// Builds the "no authentication required" acknowledgment frame.
pub fn encode_no_authentication() -> (r: Vec<u8>)
    ensures
        r@ == auth_ack_encoded(),
{
    let mut out: Vec<u8> = Vec::new();
    out.push(SOCKS_VER_6);
    out.push(SOCKS6_AUTH_SUCCESS);
    proof {
        assert(out@ =~= auth_ack_encoded());
    }
    out
}

/// What the two-byte authentication acknowledgment means.
pub open spec fn auth_ack_result(version: u8, status: u8) -> Result<(), SocksError> {
    if version != SOCKS_VER_6 {
        Err(SocksError::ProtocolVersionMismatch)
    } else if status != SOCKS6_AUTH_SUCCESS {
        Err(SocksError::AuthenticationFailed)
    } else {
        Ok(())
    }
}

/// The methods a client advertises: username/password when credentials are
/// configured, none otherwise.
pub open spec fn advertised_methods(has_credentials: bool) -> Seq<u8> {
    if has_credentials {
        seq![SOCKS_AUTH_USERNAME_PASSWORD]
    } else {
        Seq::<u8>::empty()
    }
}

/// The option list a handshake sends: the caller's options followed by the
/// client's authentication-method advertisement.
pub open spec fn handshake_options(has_credentials: bool, initial_data_length: u16,
    opts: Seq<SocksOptionView>) -> Seq<SocksOptionView>
{
    opts.push(SocksOptionView::AuthMethodAdvertisement {
        initial_data_length,
        methods: advertised_methods(has_credentials),
    })
}

/// Everything a handshake sends: the CONNECT request frame, then the
/// initial data itself.
pub open spec fn handshake_bytes(has_credentials: bool, dest: AddressView,
    initial_data: Seq<u8>, opts: Seq<SocksOptionView>) -> Seq<u8>
{
    request_encoded(Socks6RequestView {
        command: SOCKS_CMD_CONNECT,
        destination: dest,
        initial_data_length: initial_data.len() as u16,
        options: handshake_options(has_credentials, initial_data.len() as u16, opts),
    }) + initial_data
}

/// An outbound SOCKS6 client: the proxy endpoint it will be connected to
/// and the credentials it may authenticate with.
#[derive(Clone, Debug)]
pub struct Socks6Client {
    pub proxy_host: Vec<u8>,
    pub proxy_port: u16,
    pub credentials: Option<Credentials>,
}

impl Socks6Client {
    /// Whether credentials are configured.
    pub open spec fn spec_has_credentials(self) -> bool {
        self.credentials is Some
    }

    /// Whether the configured credentials (if any) fit the protocol's
    /// one-byte length fields.
    pub open spec fn credentials_ok(self) -> bool {
        match self.credentials {
            Some(c) => c@.wf(),
            None => true,
        }
    }

    /// Creates a client for the proxy at `proxy_host:proxy_port`.
    pub fn new(proxy_host: Vec<u8>, proxy_port: u16, credentials: Option<Credentials>) -> (r: Self)
        ensures
            r.proxy_host@ == proxy_host@,
            r.proxy_port == proxy_port,
            r.credentials == credentials,
    {
        Socks6Client { proxy_host, proxy_port, credentials }
    }

    /// Whether credentials are configured.
    pub fn has_credentials(&self) -> (r: bool)
        ensures
            r == self.spec_has_credentials(),
    {
        self.credentials.is_some()
    }

    /// Checks the credential length invariants. This runs before any byte
    /// is sent: a client with an oversized username or password never
    /// opens a connection.
    pub fn validate(&self) -> (r: Result<(), SocksError>)
        ensures
            r is Ok <==> self.credentials_ok(),
            r is Err ==> r == Err::<(), SocksError>(SocksError::InvalidCredentials),
    {
        match &self.credentials {
            Some(c) => {
                if c.username.len() > 255 || c.password.len() > 255 {
                    Err(SocksError::InvalidCredentials)
                } else {
                    Ok(())
                }
            }
            None => Ok(()),
        }
    }

    /// Everything the handshake sends for a CONNECT to `destination`: the
    /// request frame carrying the initial-data length, the caller's options
    /// and the authentication-method advertisement, followed by the initial
    /// data itself. Fails with `InvalidCredentials` on oversized
    /// credentials and with `InitialDataTooLarge` past the protocol's
    /// 16384-byte bound, in that order, before anything would be sent.
    pub fn handshake_request(&self, destination: Address, initial_data: &Vec<u8>,
        options: Vec<SocksOption>) -> (r: Result<Vec<u8>, SocksError>)
        requires
            destination@.wf(),
            options_wf(option_views(options@)),
            options_encoded(option_views(options@)).len() + 6 <= 65535,
        ensures
            r is Ok <==> self.credentials_ok() && initial_data@.len() <= SOCKS_MAX_INITIAL_DATA,
            !self.credentials_ok() ==> r == Err::<Vec<u8>, SocksError>(SocksError::InvalidCredentials),
            self.credentials_ok() && initial_data@.len() > SOCKS_MAX_INITIAL_DATA
                ==> r == Err::<Vec<u8>, SocksError>(SocksError::InitialDataTooLarge),
            r matches Ok(v) ==> v@ == handshake_bytes(self.spec_has_credentials(),
                destination@, initial_data@, option_views(options@)),
    {
        if let Err(e) = self.validate() {
            return Err(e);
        }
        if initial_data.len() > SOCKS_MAX_INITIAL_DATA {
            return Err(SocksError::InitialDataTooLarge);
        }
        let initial_data_length = initial_data.len() as u16;
        let mut methods: Vec<u8> = Vec::new();
        if self.credentials.is_some() {
            methods.push(SOCKS_AUTH_USERNAME_PASSWORD);
        }
        proof {
            assert(methods@ =~= advertised_methods(self.spec_has_credentials()));
        }
        let adv = SocksOption::AuthMethodAdvertisement { initial_data_length, methods };
        let ghost opts0 = option_views(options@);
        let mut all_options = options;
        all_options.push(adv);
        proof {
            assert(option_views(all_options@) =~= opts0.push(adv@));
            lemma_options_encoded_push(opts0, adv@);
            assert(adv@.encoded().len() <= 6);
            assert forall|i: int| 0 <= i < option_views(all_options@).len()
                implies #[trigger] option_views(all_options@)[i].wf() by {
                if i < opts0.len() {
                    assert(option_views(all_options@)[i] == opts0[i]);
                }
            }
        }
        let request = Socks6Request::new(SOCKS_CMD_CONNECT, destination,
            initial_data_length, all_options);
        let mut out = request.into_socks_bytes();
        push_all(&mut out, initial_data);
        Ok(out)
    }

    /// Interprets the proxy's two-byte authentication acknowledgment.
    pub fn on_auth_ack(&self, version: u8, status: u8) -> (r: Result<(), SocksError>)
        ensures
            r == auth_ack_result(version, status),
    {
        if version != SOCKS_VER_6 {
            Err(SocksError::ProtocolVersionMismatch)
        } else if status != SOCKS6_AUTH_SUCCESS {
            Err(SocksError::AuthenticationFailed)
        } else {
            Ok(())
        }
    }

    /// Interprets the proxy's whole reply frame: the bound address and the
    /// reply's options on success, the exact failure otherwise.
    pub fn on_reply(&self, s: &Vec<u8>) -> (r: Result<(Address, Vec<SocksOption>), SocksError>)
        ensures
            match r {
                Ok(p) => {
                    &&& p.0@.wf()
                    &&& reply_decoded(s@) == Some((SOCKS6_REPLY_SUCCESS, p.0@, option_views(p.1@)))
                },
                Err(e) => match reply_decoded(s@) {
                    Some(p) => p.0 != SOCKS6_REPLY_SUCCESS && e == SocksError::RequestRejected,
                    None => e == SocksError::MalformedFrame,
                },
            },
    {
        match decode_reply(s) {
            Ok((code, bound, opts)) => {
                if code == SOCKS6_REPLY_SUCCESS {
                    Ok((bound, opts))
                } else {
                    Err(SocksError::RequestRejected)
                }
            }
            Err(e) => Err(e),
        }
    }
}

} // verus!
