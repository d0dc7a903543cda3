//! The SOCKS6 option codec.
//!
//! An option travels as a tag byte, a two-byte big-endian value length, and
//! the value bytes. This relay understands the authentication-method
//! advertisement and the chain-hop forwarding option; any other option is
//! carried opaquely so that relaying preserves it.

use vstd::prelude::*;

use crate::addresses::{decode_hop, encode_hop_into, hop_decoded, lemma_hop_round_trip, ProxyAddress, ProxyAddressView};
use crate::bytes::{be16, be16_val, copy_range, lemma_be16_round_trip, push_all, push_be16, read_be16};
use crate::errors::SocksError;

verus! {

/// Option tag for the authentication-method advertisement.
pub const OPTION_AUTH_ADV: u8 = 2;
/// Option tag for one forwarding hop of a proxy chain.
pub const OPTION_CHAIN_HOP: u8 = 3;

/// One SOCKS6 option.
#[derive(Clone, Debug)]
pub enum SocksOption {
    /// Advertises the methods the client can authenticate with, together
    /// with the length of the initial data sent ahead of the reply.
    AuthMethodAdvertisement { initial_data_length: u16, methods: Vec<u8> },
    /// One remaining hop of the proxy chain the request should traverse.
    ChainHop(ProxyAddress),
    /// An option this layer does not consume; relayed opaquely.
    Unrecognized { kind: u8, value: Vec<u8> },
}

/// The mathematical model of a [`SocksOption`].
pub enum SocksOptionView {
    AuthMethodAdvertisement { initial_data_length: u16, methods: Seq<u8> },
    ChainHop(ProxyAddressView),
    Unrecognized { kind: u8, value: Seq<u8> },
}

impl View for SocksOption {
    type V = SocksOptionView;

    open spec fn view(&self) -> SocksOptionView {
        match self {
            SocksOption::AuthMethodAdvertisement { initial_data_length, methods } =>
                SocksOptionView::AuthMethodAdvertisement {
                    initial_data_length: *initial_data_length,
                    methods: methods@,
                },
            SocksOption::ChainHop(h) => SocksOptionView::ChainHop(h@),
            SocksOption::Unrecognized { kind, value } =>
                SocksOptionView::Unrecognized { kind: *kind, value: value@ },
        }
    }
}

/// The views of a sequence of options.
pub open spec fn option_views(s: Seq<SocksOption>) -> Seq<SocksOptionView> {
    s.map_values(|o: SocksOption| o@)
}

impl SocksOptionView {
    /// The value fits its two-byte length field, and an unrecognized option
    /// does not impersonate a tag this layer consumes.
    pub open spec fn wf(self) -> bool {
        match self {
            SocksOptionView::AuthMethodAdvertisement { methods, .. } => methods.len() + 2 <= 65535,
            SocksOptionView::ChainHop(h) => h.wf(),
            SocksOptionView::Unrecognized { kind, value } => {
                &&& kind != OPTION_AUTH_ADV
                &&& kind != OPTION_CHAIN_HOP
                &&& value.len() <= 65535
            },
        }
    }

    /// The option's tag byte.
    pub open spec fn kind_byte(self) -> u8 {
        match self {
            SocksOptionView::AuthMethodAdvertisement { .. } => OPTION_AUTH_ADV,
            SocksOptionView::ChainHop(_) => OPTION_CHAIN_HOP,
            SocksOptionView::Unrecognized { kind, .. } => kind,
        }
    }

    /// The option's value bytes.
    pub open spec fn value_bytes(self) -> Seq<u8> {
        match self {
            SocksOptionView::AuthMethodAdvertisement { initial_data_length, methods } =>
                be16(initial_data_length) + methods,
            SocksOptionView::ChainHop(h) => h.encoded(),
            SocksOptionView::Unrecognized { value, .. } => value,
        }
    }

    /// The wire form: tag, value length, value.
    pub open spec fn encoded(self) -> Seq<u8> {
        seq![self.kind_byte()] + be16(self.value_bytes().len() as u16) + self.value_bytes()
    }
}

/// Every option in `s` is well-formed.
pub open spec fn options_wf(s: Seq<SocksOptionView>) -> bool {
    forall|i: int| 0 <= i < s.len() ==> #[trigger] s[i].wf()
}

/// The concatenated wire form of a sequence of options.
pub open spec fn options_encoded(s: Seq<SocksOptionView>) -> Seq<u8>
    decreases s.len(),
{
    if s.len() == 0 {
        Seq::empty()
    } else {
        s[0].encoded() + options_encoded(s.skip(1))
    }
}

/// Appending one option appends its encoding.
pub proof fn lemma_options_encoded_push(s: Seq<SocksOptionView>, o: SocksOptionView)
    ensures
        options_encoded(s.push(o)) == options_encoded(s) + o.encoded(),
    decreases s.len(),
{
    let p = s.push(o);
    if s.len() == 0 {
        assert(p[0] == o);
        assert(p.skip(1) =~= Seq::<SocksOptionView>::empty());
        assert(options_encoded(p.skip(1)) == Seq::<u8>::empty());
        assert(options_encoded(p) == o.encoded() + Seq::<u8>::empty());
        assert(o.encoded() + Seq::<u8>::empty() =~= o.encoded());
        assert(options_encoded(s) == Seq::<u8>::empty());
        assert(Seq::<u8>::empty() + o.encoded() =~= o.encoded());
    } else {
        lemma_options_encoded_push(s.skip(1), o);
        assert(p.skip(1) =~= s.skip(1).push(o));
        assert(p[0] == s[0]);
        assert(options_encoded(p) == s[0].encoded() + (options_encoded(s.skip(1)) + o.encoded()));
        assert(s[0].encoded() + (options_encoded(s.skip(1)) + o.encoded())
            =~= (s[0].encoded() + options_encoded(s.skip(1))) + o.encoded());
        assert(options_encoded(s) == s[0].encoded() + options_encoded(s.skip(1)));
    }
}

/// The option at the front of `s`, with the number of bytes it occupies, or
/// `None` when `s` does not begin with a well-formed option.
pub open spec fn option_decoded(s: Seq<u8>) -> Option<(SocksOptionView, int)> {
    if s.len() < 3 {
        None
    } else {
        let k = s[0];
        let vl = be16_val(s[1], s[2]) as int;
        if s.len() < 3 + vl {
            None
        } else {
            let v = s.subrange(3, 3 + vl);
            if k == OPTION_AUTH_ADV {
                if vl >= 2 {
                    Some((SocksOptionView::AuthMethodAdvertisement {
                        initial_data_length: be16_val(v[0], v[1]),
                        methods: v.subrange(2, vl),
                    }, 3 + vl))
                } else {
                    None
                }
            } else if k == OPTION_CHAIN_HOP {
                match hop_decoded(v) {
                    Some(h) => Some((SocksOptionView::ChainHop(h), 3 + vl)),
                    None => None,
                }
            } else {
                Some((SocksOptionView::Unrecognized { kind: k, value: v }, 3 + vl))
            }
        }
    }
}

/// The options encoded as exactly the whole of `s`, or `None` when `s` is
/// not a well-formed option list.
pub open spec fn options_decoded(s: Seq<u8>) -> Option<Seq<SocksOptionView>>
    decreases s.len(),
{
    if s.len() == 0 {
        Some(Seq::empty())
    } else {
        match option_decoded(s) {
            Some((o, n)) => match options_decoded(s.subrange(n, s.len() as int)) {
                Some(rest) => Some(seq![o] + rest),
                None => None,
            },
            None => None,
        }
    }
}

/// Decoding recovers exactly the encoded option, whatever bytes follow it.
pub proof fn lemma_option_round_trip(o: SocksOptionView, rest: Seq<u8>)
    requires
        o.wf(),
    ensures
        option_decoded(o.encoded() + rest) == Some((o, o.encoded().len() as int)),
{
    let v = o.value_bytes();
    let s = o.encoded() + rest;
    assert(v.len() <= 65535);
    let vl = v.len() as u16;
    lemma_be16_round_trip(vl);
    assert(s[1] == be16(vl)[0] && s[2] == be16(vl)[1]);
    assert(s.subrange(3, 3 + vl as int) =~= v);
    match o {
        SocksOptionView::AuthMethodAdvertisement { initial_data_length, methods } => {
            lemma_be16_round_trip(initial_data_length);
            assert(v[0] == be16(initial_data_length)[0] && v[1] == be16(initial_data_length)[1]);
            assert(v.subrange(2, vl as int) =~= methods);
            assert(o == SocksOptionView::AuthMethodAdvertisement { initial_data_length, methods });
        }
        SocksOptionView::ChainHop(h) => {
            lemma_hop_round_trip(h);
        }
        SocksOptionView::Unrecognized { kind, value } => {
            assert(o == SocksOptionView::Unrecognized { kind, value });
        }
    }
}

/// Decoding recovers exactly the encoded option list.
pub proof fn lemma_options_round_trip(opts: Seq<SocksOptionView>)
    requires
        options_wf(opts),
    ensures
        options_decoded(options_encoded(opts)) == Some(opts),
    decreases opts.len(),
{
    if opts.len() == 0 {
        assert(options_encoded(opts) == Seq::<u8>::empty());
        assert(options_decoded(Seq::<u8>::empty()) == Some(Seq::<SocksOptionView>::empty()));
        assert(Seq::<SocksOptionView>::empty() =~= opts);
    } else {
        let head = opts[0];
        let tail = opts.skip(1);
        let e0 = head.encoded();
        let etail = options_encoded(tail);
        let s = options_encoded(opts);
        assert(s == e0 + etail);
        assert(head.wf());
        lemma_option_round_trip(head, etail);
        assert(option_decoded(s) == Some((head, e0.len() as int)));
        assert(e0.len() >= 3);
        assert(s.subrange(e0.len() as int, s.len() as int) =~= etail);
        assert forall|i: int| 0 <= i < tail.len() implies #[trigger] tail[i].wf() by {
            assert(tail[i] == opts[i + 1]);
            assert(opts[i + 1].wf());
        }
        assert(options_wf(tail));
        lemma_options_round_trip(tail);
        assert(options_decoded(etail) == Some(tail));
        assert(options_decoded(s) == Some(seq![head] + tail));
        assert(seq![head] + tail =~= opts);
    }
}

/// A successfully decoded option is well-formed and re-encodes to the very
/// bytes it occupied: an option this layer does not understand is carried
/// through unchanged.
pub proof fn lemma_option_decoded_inverse(s: Seq<u8>)
    ensures
        match option_decoded(s) {
            Some(p) => {
                &&& p.0.wf()
                &&& 0 < p.1 <= s.len()
                &&& p.0.encoded() == s.subrange(0, p.1)
            },
            None => true,
        },
{
    match option_decoded(s) {
        Some((o, n)) => {
            let vl = be16_val(s[1], s[2]) as int;
            let v = s.subrange(3, 3 + vl);
            crate::bytes::lemma_be16_inverse(s[1], s[2]);
            match o {
                SocksOptionView::AuthMethodAdvertisement { .. } => {
                    crate::bytes::lemma_be16_inverse(v[0], v[1]);
                    assert(o.value_bytes() =~= v);
                }
                SocksOptionView::ChainHop(_) => {
                    crate::addresses::lemma_hop_decoded_inverse(v);
                    assert(o.value_bytes() == v);
                }
                SocksOptionView::Unrecognized { .. } => {
                    assert(o.value_bytes() == v);
                }
            }
            assert(o.encoded() =~= s.subrange(0, n));
        }
        None => {}
    }
}

/// A successfully decoded option list is well-formed throughout and
/// re-encodes to the very bytes it was decoded from.
#[verifier::spinoff_prover]
#[verifier::rlimit(50)]
pub proof fn lemma_options_decoded_inverse(s: Seq<u8>)
    ensures
        match options_decoded(s) {
            Some(opts) => options_wf(opts) && options_encoded(opts) == s,
            None => true,
        },
    decreases s.len(),
{
    if s.len() == 0 {
        assert(options_encoded(Seq::<SocksOptionView>::empty()) =~= s);
    } else {
        match option_decoded(s) {
            Some((o, n)) => {
                lemma_option_decoded_inverse(s);
                let rest_bytes = s.subrange(n, s.len() as int);
                lemma_options_decoded_inverse(rest_bytes);
                match options_decoded(rest_bytes) {
                    Some(rest) => {
                        let opts = seq![o] + rest;
                        assert(opts[0] == o);
                        assert(opts.skip(1) =~= rest);
                        assert(options_encoded(opts) == o.encoded() + options_encoded(rest));
                        crate::bytes::lemma_concat_subranges(s, n);
                        assert(o.encoded() + options_encoded(rest) == s);
                        assert forall|i: int| 0 <= i < opts.len() implies #[trigger] opts[i].wf() by {
                            if i > 0 {
                                assert(opts[i] == rest[i - 1]);
                            }
                        }
                    }
                    None => {}
                }
            }
            None => {}
        }
    }
}

/// Appends the wire encoding of option `o` to `out`.
pub fn encode_option_into(o: &SocksOption, out: &mut Vec<u8>)
    requires
        o@.wf(),
    ensures
        final(out)@ == old(out)@ + o@.encoded(),
{
    let k: u8 = match o {
        SocksOption::AuthMethodAdvertisement { .. } => OPTION_AUTH_ADV,
        SocksOption::ChainHop(_) => OPTION_CHAIN_HOP,
        SocksOption::Unrecognized { kind, .. } => *kind,
    };
    let mut v: Vec<u8> = Vec::new();
    match o {
        SocksOption::AuthMethodAdvertisement { initial_data_length, methods } => {
            push_be16(&mut v, *initial_data_length);
            push_all(&mut v, methods);
        }
        SocksOption::ChainHop(h) => {
            encode_hop_into(h, &mut v);
        }
        SocksOption::Unrecognized { value, .. } => {
            push_all(&mut v, value);
        }
    }
    proof {
        assert(v@ == o@.value_bytes());
    }
    out.push(k);
    push_be16(out, v.len() as u16);
    push_all(out, &v);
    proof {
        assert(out@ =~= old(out)@ + o@.encoded());
    }
}

/// Appends the wire encoding of every option in `opts`, in order, to `out`.
pub fn encode_options_into(opts: &Vec<SocksOption>, out: &mut Vec<u8>)
    requires
        options_wf(option_views(opts@)),
    ensures
        final(out)@ == old(out)@ + options_encoded(option_views(opts@)),
{
    let n = opts.len();
    let mut i: usize = 0;
    while i < n
        invariant
            i <= n == opts@.len(),
            options_wf(option_views(opts@)),
            out@ == old(out)@ + options_encoded(option_views(opts@.subrange(0, i as int))),
        decreases n - i,
    {
        proof {
            assert(option_views(opts@)[i as int] == opts@[i as int]@);
        }
        encode_option_into(&opts[i], out);
        proof {
            lemma_options_encoded_push(option_views(opts@.subrange(0, i as int)), opts@[i as int]@);
            assert(option_views(opts@.subrange(0, i + 1))
                =~= option_views(opts@.subrange(0, i as int)).push(opts@[i as int]@));
        }
        i = i + 1;
    }
    proof {
        assert(opts@.subrange(0, n as int) =~= opts@);
    }
}

/// Reads the option at position `start` of `s[..end]`; on success also
/// returns the position just past it. Fails exactly when no well-formed
/// option starts there.
pub fn decode_option(s: &Vec<u8>, start: usize, end: usize) -> (r: Result<(SocksOption, usize), SocksError>)
    requires
        start <= end <= s@.len(),
    ensures
        match r {
            Ok(p) => {
                &&& start < p.1 <= end
                &&& p.0@.wf()
                &&& option_decoded(s@.subrange(start as int, end as int)) == Some((p.0@, p.1 - start))
            },
            Err(e) => {
                &&& e == SocksError::MalformedFrame
                &&& option_decoded(s@.subrange(start as int, end as int)) is None
            },
        },
{
    let ghost t = s@.subrange(start as int, end as int);
    if end - start < 3 {
        return Err(SocksError::MalformedFrame);
    }
    let k = s[start];
    let vl = read_be16(s, start + 1) as usize;
    if end - start < 3 + vl {
        return Err(SocksError::MalformedFrame);
    }
    let vstart = start + 3;
    let vend = vstart + vl;
    proof {
        assert(t[0] == s@[start as int]);
        assert(t[1] == s@[start + 1]);
        assert(t[2] == s@[start + 2]);
        assert(t.subrange(3, 3 + vl as int) =~= s@.subrange(vstart as int, vend as int));
    }
    if k == OPTION_AUTH_ADV {
        if vl < 2 {
            return Err(SocksError::MalformedFrame);
        }
        let idl = read_be16(s, vstart);
        let methods = copy_range(s, vstart + 2, vend);
        proof {
            let v = t.subrange(3, 3 + vl as int);
            assert(v[0] == s@[vstart as int]);
            assert(v[1] == s@[vstart + 1]);
            assert(v.subrange(2, vl as int) =~= methods@);
        }
        Ok((SocksOption::AuthMethodAdvertisement { initial_data_length: idl, methods }, vend))
    } else if k == OPTION_CHAIN_HOP {
        let v = copy_range(s, vstart, vend);
        proof {
            assert(v@.skip(0) =~= v@);
        }
        match decode_hop(&v, 0) {
            Ok(h) => Ok((SocksOption::ChainHop(h), vend)),
            Err(e) => Err(e),
        }
    } else {
        let value = copy_range(s, vstart, vend);
        Ok((SocksOption::Unrecognized { kind: k, value }, vend))
    }
}

/// Reads the option list occupying `s[start..end]` exactly. Fails exactly
/// when that range is not a well-formed option list.
pub fn decode_options(s: &Vec<u8>, start: usize, end: usize) -> (r: Result<Vec<SocksOption>, SocksError>)
    requires
        start <= end <= s@.len(),
    ensures
        match r {
            Ok(v) => {
                &&& options_decoded(s@.subrange(start as int, end as int)) == Some(option_views(v@))
                &&& options_wf(option_views(v@))
            },
            Err(e) => {
                &&& e == SocksError::MalformedFrame
                &&& options_decoded(s@.subrange(start as int, end as int)) is None
            },
        },
{
    let ghost whole = s@.subrange(start as int, end as int);
    let mut acc: Vec<SocksOption> = Vec::new();
    let mut i: usize = start;
    while i < end
        invariant
            start <= i <= end <= s@.len(),
            options_wf(option_views(acc@)),
            options_decoded(s@.subrange(start as int, end as int)) == (
                match options_decoded(s@.subrange(i as int, end as int)) {
                    Some(rest) => Some(option_views(acc@) + rest),
                    None => None::<Seq<SocksOptionView>>,
                }),
        decreases end - i,
    {
        let ghost pre = s@.subrange(i as int, end as int);
        match decode_option(s, i, end) {
            Ok((o, next)) => {
                proof {
                    assert(pre.subrange(next - i, pre.len() as int)
                        =~= s@.subrange(next as int, end as int));
                    assert(option_views(acc@.push(o)) =~= option_views(acc@).push(o@));
                    assert forall|rest: Seq<SocksOptionView>|
                        option_views(acc@) + (seq![o@] + rest)
                            =~= option_views(acc@).push(o@) + rest by {}
                }
                acc.push(o);
                i = next;
            }
            Err(e) => {
                return Err(e);
            }
        }
    }
    proof {
        assert(s@.subrange(i as int, end as int) =~= Seq::<u8>::empty());
        assert(option_views(acc@) + Seq::<SocksOptionView>::empty() =~= option_views(acc@));
    }
    Ok(acc)
}

} // verus!
