//! Value types shared by both protocol versions: destination addresses,
//! authentication credentials, and chain hops.
//!
//! Each type has a mathematical view, a well-formedness predicate, a wire
//! encoding stated as a spec function, and a decoder proved exact against
//! it: decoding an encoded value recovers the value.

use vstd::prelude::*;

use crate::bytes::{be16, be16_val, copy_range, lemma_be16_round_trip, push_all, push_be16, read_be16};
use crate::errors::SocksError;

verus! {

/// Address-type tag for an IPv4 literal.
pub const ATYP_IPV4: u8 = 1;
/// Address-type tag for a domain name.
pub const ATYP_DOMAIN: u8 = 3;
/// Address-type tag for an IPv6 literal.
pub const ATYP_IPV6: u8 = 4;

/// The host part of an address: a domain name (as bytes) or a literal address.
#[derive(Clone, Debug)]
pub enum Host {
    Domain(Vec<u8>),
    Ipv4(Vec<u8>),
    Ipv6(Vec<u8>),
}

/// The mathematical model of a [`Host`].
pub enum HostView {
    Domain(Seq<u8>),
    Ipv4(Seq<u8>),
    Ipv6(Seq<u8>),
}

impl View for Host {
    type V = HostView;

    open spec fn view(&self) -> HostView {
        match self {
            Host::Domain(d) => HostView::Domain(d@),
            Host::Ipv4(b) => HostView::Ipv4(b@),
            Host::Ipv6(b) => HostView::Ipv6(b@),
        }
    }
}

impl HostView {
    /// A domain name fits in its one-byte length field; literal addresses
    /// carry exactly their protocol's number of bytes.
    pub open spec fn wf(self) -> bool {
        match self {
            HostView::Domain(d) => d.len() <= 255,
            HostView::Ipv4(b) => b.len() == 4,
            HostView::Ipv6(b) => b.len() == 16,
        }
    }
}

/// A destination or bound address: host plus TCP port.
#[derive(Clone, Debug)]
pub struct Address {
    pub host: Host,
    pub port: u16,
}

/// The mathematical model of an [`Address`].
pub struct AddressView {
    pub host: HostView,
    pub port: u16,
}

impl View for Address {
    type V = AddressView;

    open spec fn view(&self) -> AddressView {
        AddressView { host: self.host@, port: self.port }
    }
}

impl AddressView {
    pub open spec fn wf(self) -> bool {
        self.host.wf()
    }

    /// The SOCKS wire form: address-type tag, payload (length-prefixed for a
    /// domain name), then the port in big-endian.
    pub open spec fn encoded(self) -> Seq<u8> {
        match self.host {
            HostView::Domain(d) => seq![ATYP_DOMAIN, d.len() as u8] + d + be16(self.port),
            HostView::Ipv4(b) => seq![ATYP_IPV4] + b + be16(self.port),
            HostView::Ipv6(b) => seq![ATYP_IPV6] + b + be16(self.port),
        }
    }
}

/// The address at the front of `s`, with the number of bytes it occupies,
/// or `None` when `s` does not begin with a well-formed address.
pub open spec fn addr_decoded(s: Seq<u8>) -> Option<(AddressView, int)> {
    if s.len() < 1 {
        None
    } else if s[0] == ATYP_IPV4 {
        if s.len() >= 7 {
            Some((AddressView { host: HostView::Ipv4(s.subrange(1, 5)), port: be16_val(s[5], s[6]) }, 7))
        } else {
            None
        }
    } else if s[0] == ATYP_IPV6 {
        if s.len() >= 19 {
            Some((AddressView { host: HostView::Ipv6(s.subrange(1, 17)), port: be16_val(s[17], s[18]) }, 19))
        } else {
            None
        }
    } else if s[0] == ATYP_DOMAIN {
        if s.len() >= 2 && s.len() >= 4 + s[1] {
            let n = s[1] as int;
            Some((AddressView {
                host: HostView::Domain(s.subrange(2, 2 + n)),
                port: be16_val(s[2 + n], s[3 + n]),
            }, 4 + n))
        } else {
            None
        }
    } else {
        None
    }
}

/// Decoding recovers exactly the encoded address, whatever bytes follow it.
pub proof fn lemma_addr_round_trip(a: AddressView, rest: Seq<u8>)
    requires
        a.wf(),
    ensures
        addr_decoded(a.encoded() + rest) == Some((a, a.encoded().len() as int)),
{
    let s = a.encoded() + rest;
    lemma_be16_round_trip(a.port);
    match a.host {
        HostView::Ipv4(b) => {
            assert(s.subrange(1, 5) =~= b);
            assert(s[5] == be16(a.port)[0] && s[6] == be16(a.port)[1]);
            assert(a == AddressView { host: HostView::Ipv4(b), port: a.port });
        }
        HostView::Ipv6(b) => {
            assert(s.subrange(1, 17) =~= b);
            assert(s[17] == be16(a.port)[0] && s[18] == be16(a.port)[1]);
            assert(a == AddressView { host: HostView::Ipv6(b), port: a.port });
        }
        HostView::Domain(d) => {
            let n = d.len() as int;
            assert(s[1] == n as u8);
            assert(s.subrange(2, 2 + n) =~= d);
            assert(s[2 + n] == be16(a.port)[0] && s[3 + n] == be16(a.port)[1]);
            assert(a == AddressView { host: HostView::Domain(d), port: a.port });
        }
    }
}

impl Address {
    /// Appends the wire encoding of this address to `out`.
    pub fn encode_into(&self, out: &mut Vec<u8>)
        requires
            self@.wf(),
        ensures
            final(out)@ == old(out)@ + self@.encoded(),
    {
        match &self.host {
            Host::Domain(d) => {
                out.push(ATYP_DOMAIN);
                out.push(d.len() as u8);
                push_all(out, d);
            }
            Host::Ipv4(b) => {
                out.push(ATYP_IPV4);
                push_all(out, b);
            }
            Host::Ipv6(b) => {
                out.push(ATYP_IPV6);
                push_all(out, b);
            }
        }
        push_be16(out, self.port);
        proof {
            assert(out@ =~= old(out)@ + self@.encoded());
        }
    }
}

/// Reads the address at position `start` of `s`; on success also returns the
/// position just past it. Fails exactly when no well-formed address starts
/// there.
pub fn decode_address(s: &Vec<u8>, start: usize) -> (r: Result<(Address, usize), SocksError>)
    requires
        start <= s@.len(),
    ensures
        match r {
            Ok(p) => {
                &&& start <= p.1 <= s@.len()
                &&& p.0@.wf()
                &&& addr_decoded(s@.skip(start as int)) == Some((p.0@, p.1 - start))
            },
            Err(e) => {
                &&& e == SocksError::MalformedFrame
                &&& addr_decoded(s@.skip(start as int)) is None
            },
        },
{
    let ghost t = s@.skip(start as int);
    let n = s.len();
    if start >= n {
        return Err(SocksError::MalformedFrame);
    }
    let atyp = s[start];
    if atyp == ATYP_IPV4 {
        if n - start < 7 {
            return Err(SocksError::MalformedFrame);
        }
        let b = copy_range(s, start + 1, start + 5);
        let port = read_be16(s, start + 5);
        let a = Address { host: Host::Ipv4(b), port };
        proof {
            assert(t.subrange(1, 5) =~= b@);
        }
        Ok((a, start + 7))
    } else if atyp == ATYP_IPV6 {
        if n - start < 19 {
            return Err(SocksError::MalformedFrame);
        }
        let b = copy_range(s, start + 1, start + 17);
        let port = read_be16(s, start + 17);
        let a = Address { host: Host::Ipv6(b), port };
        proof {
            assert(t.subrange(1, 17) =~= b@);
        }
        Ok((a, start + 19))
    } else if atyp == ATYP_DOMAIN {
        if n - start < 2 {
            return Err(SocksError::MalformedFrame);
        }
        let dl = s[start + 1] as usize;
        if n - start < 4 + dl {
            return Err(SocksError::MalformedFrame);
        }
        let d = copy_range(s, start + 2, start + 2 + dl);
        let port = read_be16(s, start + 2 + dl);
        let a = Address { host: Host::Domain(d), port };
        proof {
            assert(t.subrange(2, 2 + dl as int) =~= d@);
        }
        Ok((a, start + 4 + dl))
    } else {
        Err(SocksError::MalformedFrame)
    }
}

/// The length of a whole encoded address whose first two bytes are `tag`
/// and `second` (for a domain name, `second` is the length byte); `None`
/// for an unknown tag.
pub open spec fn spec_addr_encoded_len(tag: u8, second: u8) -> Option<int> {
    if tag == ATYP_IPV4 {
        Some(7int)
    } else if tag == ATYP_IPV6 {
        Some(19int)
    } else if tag == ATYP_DOMAIN {
        Some(4 + second as int)
    } else {
        None
    }
}

/// The first two bytes of an encoded address determine its whole length.
pub proof fn lemma_addr_encoded_len(a: AddressView)
    requires
        a.wf(),
    ensures
        a.encoded().len() >= 4,
        spec_addr_encoded_len(a.encoded()[0], a.encoded()[1]) == Some(a.encoded().len() as int),
{
}

/// How long a whole encoded address is, given its first two bytes; lets a
/// reader fetch exactly the remaining bytes of an address mid-frame.
pub fn addr_len_from_prefix(tag: u8, second: u8) -> (r: Option<usize>)
    ensures
        match r {
            Some(n) => spec_addr_encoded_len(tag, second) == Some(n as int),
            None => spec_addr_encoded_len(tag, second) is None,
        },
{
    if tag == ATYP_IPV4 {
        Some(7)
    } else if tag == ATYP_IPV6 {
        Some(19)
    } else if tag == ATYP_DOMAIN {
        Some(4 + second as usize)
    } else {
        None
    }
}

/// Username/password authentication credentials.
#[derive(Clone, Debug)]
pub struct Credentials {
    pub username: Vec<u8>,
    pub password: Vec<u8>,
}

/// The mathematical model of [`Credentials`].
pub struct CredentialsView {
    pub username: Seq<u8>,
    pub password: Seq<u8>,
}

impl View for Credentials {
    type V = CredentialsView;

    open spec fn view(&self) -> CredentialsView {
        CredentialsView { username: self.username@, password: self.password@ }
    }
}

impl Credentials {
    /// Packages a username and password; validity is checked where they are
    /// first sent, not here.
    pub fn new(username: Vec<u8>, password: Vec<u8>) -> (r: Self)
        ensures
            r@.username == username@,
            r@.password == password@,
    {
        Credentials { username, password }
    }
}

impl CredentialsView {
    /// Each field fits in its one-byte length field.
    pub open spec fn wf(self) -> bool {
        self.username.len() <= 255 && self.password.len() <= 255
    }

    /// The wire form: each field prefixed by its length.
    pub open spec fn encoded(self) -> Seq<u8> {
        seq![self.username.len() as u8] + self.username
            + seq![self.password.len() as u8] + self.password
    }
}

/// The credentials encoded as exactly the whole of `s`, or `None` when `s`
/// is not a well-formed credentials encoding.
pub open spec fn creds_decoded(s: Seq<u8>) -> Option<CredentialsView> {
    if s.len() < 1 {
        None
    } else {
        let ul = s[0] as int;
        if s.len() < 2 + ul {
            None
        } else {
            let pl = s[1 + ul] as int;
            if s.len() == 2 + ul + pl {
                Some(CredentialsView {
                    username: s.subrange(1, 1 + ul),
                    password: s.subrange(2 + ul, 2 + ul + pl),
                })
            } else {
                None
            }
        }
    }
}

/// Decoding recovers exactly the encoded credentials.
pub proof fn lemma_creds_round_trip(c: CredentialsView)
    requires
        c.wf(),
    ensures
        creds_decoded(c.encoded()) == Some(c),
{
    let s = c.encoded();
    let ul = c.username.len() as int;
    let pl = c.password.len() as int;
    assert(s[0] == ul as u8);
    assert(s[1 + ul] == pl as u8);
    assert(s.subrange(1, 1 + ul) =~= c.username);
    assert(s.subrange(2 + ul, 2 + ul + pl) =~= c.password);
    assert(c == CredentialsView { username: c.username, password: c.password });
}

/// A successfully decoded credentials block is well-formed and re-encodes
/// to the very bytes it was decoded from.
pub proof fn lemma_creds_decoded_inverse(s: Seq<u8>)
    ensures
        match creds_decoded(s) {
            Some(c) => c.wf() && c.encoded() == s,
            None => true,
        },
{
    match creds_decoded(s) {
        Some(c) => {
            let ul = s[0] as int;
            let pl = s[1 + ul] as int;
            assert(c.username.len() == ul);
            assert(c.password.len() == pl);
            assert(c.encoded() =~= s);
        }
        None => {}
    }
}

/// Appends the wire encoding of `c` to `out`.
pub fn encode_credentials_into(c: &Credentials, out: &mut Vec<u8>)
    requires
        c@.wf(),
    ensures
        final(out)@ == old(out)@ + c@.encoded(),
{
    out.push(c.username.len() as u8);
    push_all(out, &c.username);
    out.push(c.password.len() as u8);
    push_all(out, &c.password);
    proof {
        assert(out@ =~= old(out)@ + c@.encoded());
    }
}

/// Reads credentials occupying `s[start..]` exactly. Fails exactly when that
/// range is not a well-formed credentials encoding.
pub fn decode_credentials(s: &Vec<u8>, start: usize) -> (r: Result<Credentials, SocksError>)
    requires
        start <= s@.len(),
    ensures
        match r {
            Ok(c) => {
                &&& c@.wf()
                &&& creds_decoded(s@.skip(start as int)) == Some(c@)
            },
            Err(e) => {
                &&& e == SocksError::MalformedFrame
                &&& creds_decoded(s@.skip(start as int)) is None
            },
        },
{
    let ghost t = s@.skip(start as int);
    let n = s.len();
    if start >= n {
        return Err(SocksError::MalformedFrame);
    }
    let ul = s[start] as usize;
    if n - start < 2 + ul {
        return Err(SocksError::MalformedFrame);
    }
    let pl = s[start + 1 + ul] as usize;
    if n - start != 2 + ul + pl {
        return Err(SocksError::MalformedFrame);
    }
    let username = copy_range(s, start + 1, start + 1 + ul);
    let password = copy_range(s, start + 2 + ul, start + 2 + ul + pl);
    let c = Credentials { username, password };
    proof {
        assert(t.subrange(1, 1 + ul as int) =~= c.username@);
        assert(t.subrange(2 + ul as int, 2 + ul as int + pl as int) =~= c.password@);
    }
    Ok(c)
}

/// One chain hop: a proxy's host name (as bytes), port, and optional
/// credentials for authenticating to it.
#[derive(Clone, Debug)]
pub struct ProxyAddress {
    pub host: Vec<u8>,
    pub port: u16,
    pub credentials: Option<Credentials>,
}

/// The mathematical model of a [`ProxyAddress`].
pub struct ProxyAddressView {
    pub host: Seq<u8>,
    pub port: u16,
    pub credentials: Option<CredentialsView>,
}

impl View for ProxyAddress {
    type V = ProxyAddressView;

    open spec fn view(&self) -> ProxyAddressView {
        ProxyAddressView {
            host: self.host@,
            port: self.port,
            credentials: match self.credentials {
                Some(c) => Some(c@),
                None => None,
            },
        }
    }
}

impl ProxyAddress {
    /// Packages one hop of a proxy chain.
    pub fn new(host: Vec<u8>, port: u16, credentials: Option<Credentials>) -> (r: Self)
        ensures
            r@.host == host@,
            r@.port == port,
            r@.credentials == (match credentials {
                Some(c) => Some(c@),
                None => None::<CredentialsView>,
            }),
    {
        ProxyAddress { host, port, credentials }
    }
}

impl ProxyAddressView {
    /// The host name fits in its length field and any credentials are valid.
    pub open spec fn wf(self) -> bool {
        &&& self.host.len() <= 255
        &&& match self.credentials {
            Some(c) => c.wf(),
            None => true,
        }
    }

    /// The wire form used inside a chain-hop option: length-prefixed host,
    /// port, then a flag byte telling whether credentials follow.
    pub open spec fn encoded(self) -> Seq<u8> {
        seq![self.host.len() as u8] + self.host + be16(self.port)
            + match self.credentials {
                Some(c) => seq![1u8] + c.encoded(),
                None => seq![0u8],
            }
    }
}

/// The views of a sequence of hops.
pub open spec fn hop_views(s: Seq<ProxyAddress>) -> Seq<ProxyAddressView> {
    s.map_values(|h: ProxyAddress| h@)
}

/// Copies a hop field for field.
pub fn copy_hop(h: &ProxyAddress) -> (r: ProxyAddress)
    ensures
        r@ == h@,
{
    ProxyAddress {
        host: crate::bytes::copy_bytes(&h.host),
        port: h.port,
        credentials: match &h.credentials {
            Some(c) => Some(Credentials {
                username: crate::bytes::copy_bytes(&c.username),
                password: crate::bytes::copy_bytes(&c.password),
            }),
            None => None,
        },
    }
}

/// The hop encoded as exactly the whole of `s`, or `None` when `s` is not a
/// well-formed hop encoding.
pub open spec fn hop_decoded(s: Seq<u8>) -> Option<ProxyAddressView> {
    if s.len() < 1 {
        None
    } else {
        let hl = s[0] as int;
        if s.len() < 4 + hl {
            None
        } else {
            let host = s.subrange(1, 1 + hl);
            let port = be16_val(s[1 + hl], s[2 + hl]);
            let flag = s[3 + hl];
            if flag == 0 {
                if s.len() == 4 + hl {
                    Some(ProxyAddressView { host, port, credentials: None })
                } else {
                    None
                }
            } else if flag == 1 {
                match creds_decoded(s.subrange(4 + hl, s.len() as int)) {
                    Some(c) => Some(ProxyAddressView { host, port, credentials: Some(c) }),
                    None => None,
                }
            } else {
                None
            }
        }
    }
}

/// Decoding recovers exactly the encoded hop.
pub proof fn lemma_hop_round_trip(h: ProxyAddressView)
    requires
        h.wf(),
    ensures
        hop_decoded(h.encoded()) == Some(h),
{
    let s = h.encoded();
    let hl = h.host.len() as int;
    lemma_be16_round_trip(h.port);
    assert(s[0] == hl as u8);
    assert(s.subrange(1, 1 + hl) =~= h.host);
    assert(s[1 + hl] == be16(h.port)[0] && s[2 + hl] == be16(h.port)[1]);
    match h.credentials {
        Some(c) => {
            assert(s[3 + hl] == 1u8);
            assert(s.subrange(4 + hl, s.len() as int) =~= c.encoded());
            lemma_creds_round_trip(c);
            assert(h == ProxyAddressView { host: h.host, port: h.port, credentials: Some(c) });
        }
        None => {
            assert(s[3 + hl] == 0u8);
            assert(h == ProxyAddressView { host: h.host, port: h.port, credentials: None });
        }
    }
}

/// A successfully decoded hop is well-formed and re-encodes to the very
/// bytes it was decoded from.
pub proof fn lemma_hop_decoded_inverse(s: Seq<u8>)
    ensures
        match hop_decoded(s) {
            Some(h) => h.wf() && h.encoded() == s,
            None => true,
        },
{
    match hop_decoded(s) {
        Some(h) => {
            let hl = s[0] as int;
            assert(h.host.len() == hl);
            crate::bytes::lemma_be16_inverse(s[1 + hl], s[2 + hl]);
            if s[3 + hl] == 0 {
                assert(h.encoded() =~= s);
            } else {
                lemma_creds_decoded_inverse(s.subrange(4 + hl, s.len() as int));
                assert(h.encoded() =~= s);
            }
        }
        None => {}
    }
}

/// Appends the wire encoding of hop `h` to `out`.
pub fn encode_hop_into(h: &ProxyAddress, out: &mut Vec<u8>)
    requires
        h@.wf(),
    ensures
        final(out)@ == old(out)@ + h@.encoded(),
{
    out.push(h.host.len() as u8);
    push_all(out, &h.host);
    push_be16(out, h.port);
    match &h.credentials {
        Some(c) => {
            out.push(1u8);
            encode_credentials_into(c, out);
        }
        None => {
            out.push(0u8);
        }
    }
    proof {
        assert(out@ =~= old(out)@ + h@.encoded());
    }
}

/// Reads the hop occupying `s[start..]` exactly. Fails exactly when that
/// range is not a well-formed hop encoding.
pub fn decode_hop(s: &Vec<u8>, start: usize) -> (r: Result<ProxyAddress, SocksError>)
    requires
        start <= s@.len(),
    ensures
        match r {
            Ok(h) => {
                &&& h@.wf()
                &&& hop_decoded(s@.skip(start as int)) == Some(h@)
            },
            Err(e) => {
                &&& e == SocksError::MalformedFrame
                &&& hop_decoded(s@.skip(start as int)) is None
            },
        },
{
    let ghost t = s@.skip(start as int);
    let n = s.len();
    if start >= n {
        return Err(SocksError::MalformedFrame);
    }
    let hl = s[start] as usize;
    if n - start < 4 + hl {
        return Err(SocksError::MalformedFrame);
    }
    let host = copy_range(s, start + 1, start + 1 + hl);
    let port = read_be16(s, start + 1 + hl);
    let flag = s[start + 3 + hl];
    proof {
        assert(t.subrange(1, 1 + hl as int) =~= host@);
        assert(t[1 + hl as int] == s@[start + 1 + hl as int]);
        assert(t[2 + hl as int] == s@[start + 2 + hl as int]);
        assert(t[3 + hl as int] == s@[start + 3 + hl as int]);
    }
    if flag == 0 {
        if n - start != 4 + hl {
            return Err(SocksError::MalformedFrame);
        }
        Ok(ProxyAddress { host, port, credentials: None })
    } else if flag == 1 {
        proof {
            assert(t.subrange(4 + hl as int, t.len() as int)
                =~= s@.skip((start + 4 + hl) as int));
        }
        match decode_credentials(s, start + 4 + hl) {
            Ok(c) => Ok(ProxyAddress { host, port, credentials: Some(c) }),
            Err(e) => Err(e),
        }
    } else {
        Err(SocksError::MalformedFrame)
    }
}

} // verus!
