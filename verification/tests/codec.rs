//! Round trips and exact wire bytes of the codecs.

use socksx::addresses::{decode_address, decode_credentials, decode_hop, encode_credentials_into,
    encode_hop_into, Address, Credentials, Host, ProxyAddress};
use socksx::errors::SocksError;
use socksx::options::{decode_options, encode_options_into, SocksOption};
use socksx::socks5;
use socksx::socks6;

fn encode_address(a: &Address) -> Vec<u8> {
    let mut out = Vec::new();
    a.encode_into(&mut out);
    out
}

#[test]
fn address_round_trip_ipv4() {
    let a = Address { host: Host::Ipv4(vec![1, 2, 3, 4]), port: 80 };
    let bytes = encode_address(&a);
    assert_eq!(bytes, vec![1, 1, 2, 3, 4, 0, 80]);
    let (d, end) = decode_address(&bytes, 0).unwrap();
    assert_eq!(end, bytes.len());
    assert_eq!(d.port, 80);
    match d.host {
        Host::Ipv4(b) => assert_eq!(b, vec![1, 2, 3, 4]),
        _ => panic!("wrong variant"),
    }
}

#[test]
fn address_round_trip_ipv6() {
    let payload: Vec<u8> = (1..=16).collect();
    let a = Address { host: Host::Ipv6(payload.clone()), port: 65535 };
    let bytes = encode_address(&a);
    assert_eq!(bytes[0], 4);
    assert_eq!(&bytes[17..], &[255, 255]);
    let (d, end) = decode_address(&bytes, 0).unwrap();
    assert_eq!(end, bytes.len());
    assert_eq!(d.port, 65535);
    match d.host {
        Host::Ipv6(b) => assert_eq!(b, payload),
        _ => panic!("wrong variant"),
    }
}

#[test]
fn address_round_trip_domain() {
    let a = Address { host: Host::Domain(b"example.org".to_vec()), port: 1080 };
    let bytes = encode_address(&a);
    assert_eq!(bytes[0], 3);
    assert_eq!(bytes[1] as usize, 11);
    let (d, end) = decode_address(&bytes, 0).unwrap();
    assert_eq!(end, bytes.len());
    assert_eq!(d.port, 1080);
    match d.host {
        Host::Domain(b) => assert_eq!(b, b"example.org".to_vec()),
        _ => panic!("wrong variant"),
    }
}

#[test]
fn address_decode_rejects_unknown_tag() {
    let bytes = vec![9, 1, 2, 3, 4, 0, 80];
    assert_eq!(decode_address(&bytes, 0).unwrap_err(), SocksError::MalformedFrame);
}

#[test]
fn address_decode_rejects_truncated() {
    let bytes = vec![1, 1, 2, 3];
    assert_eq!(decode_address(&bytes, 0).unwrap_err(), SocksError::MalformedFrame);
}

#[test]
fn credentials_round_trip() {
    let c = Credentials::new(b"user".to_vec(), b"secret".to_vec());
    let mut bytes = Vec::new();
    encode_credentials_into(&c, &mut bytes);
    assert_eq!(bytes, vec![4, 117, 115, 101, 114, 6, 115, 101, 99, 114, 101, 116]);
    let d = decode_credentials(&bytes, 0).unwrap();
    assert_eq!(d.username, b"user".to_vec());
    assert_eq!(d.password, b"secret".to_vec());
}

#[test]
fn auth_frame_round_trip() {
    let c = Credentials::new(b"ab".to_vec(), b"c".to_vec());
    let frame = socks5::encode_auth_frame(&c);
    assert_eq!(frame, vec![1, 2, 97, 98, 1, 99]);
    let d = socks5::decode_auth_frame(&frame).unwrap();
    assert_eq!(d.username, b"ab".to_vec());
    assert_eq!(d.password, b"c".to_vec());
}

#[test]
fn auth_frame_rejects_wrong_version() {
    let frame = vec![2, 1, 97, 1, 98];
    assert_eq!(socks5::decode_auth_frame(&frame).unwrap_err(), SocksError::MalformedFrame);
}

#[test]
fn hop_round_trip_with_credentials() {
    let h = ProxyAddress::new(b"hop.example".to_vec(), 1080,
        Some(Credentials::new(b"u".to_vec(), b"p".to_vec())));
    let mut bytes = Vec::new();
    encode_hop_into(&h, &mut bytes);
    let d = decode_hop(&bytes, 0).unwrap();
    assert_eq!(d.host, b"hop.example".to_vec());
    assert_eq!(d.port, 1080);
    let c = d.credentials.unwrap();
    assert_eq!(c.username, b"u".to_vec());
    assert_eq!(c.password, b"p".to_vec());
}

#[test]
fn hop_round_trip_without_credentials() {
    let h = ProxyAddress::new(b"h".to_vec(), 9, None);
    let mut bytes = Vec::new();
    encode_hop_into(&h, &mut bytes);
    assert_eq!(bytes, vec![1, 104, 0, 9, 0]);
    let d = decode_hop(&bytes, 0).unwrap();
    assert_eq!(d.host, b"h".to_vec());
    assert_eq!(d.port, 9);
    assert!(d.credentials.is_none());
}

#[test]
fn options_round_trip_mixed() {
    let opts = vec![
        SocksOption::AuthMethodAdvertisement { initial_data_length: 300, methods: vec![2] },
        SocksOption::ChainHop(ProxyAddress::new(b"next".to_vec(), 1081, None)),
        SocksOption::Unrecognized { kind: 200, value: vec![9, 8, 7] },
    ];
    let mut bytes = Vec::new();
    encode_options_into(&opts, &mut bytes);
    let decoded = decode_options(&bytes, 0, bytes.len()).unwrap();
    assert_eq!(decoded.len(), 3);
    match &decoded[0] {
        SocksOption::AuthMethodAdvertisement { initial_data_length, methods } => {
            assert_eq!(*initial_data_length, 300);
            assert_eq!(methods, &vec![2]);
        }
        _ => panic!("wrong option"),
    }
    match &decoded[1] {
        SocksOption::ChainHop(h) => {
            assert_eq!(h.host, b"next".to_vec());
            assert_eq!(h.port, 1081);
        }
        _ => panic!("wrong option"),
    }
    match &decoded[2] {
        SocksOption::Unrecognized { kind, value } => {
            assert_eq!(*kind, 200);
            assert_eq!(value, &vec![9, 8, 7]);
        }
        _ => panic!("wrong option"),
    }
}

#[test]
fn unrecognized_option_forwarded_byte_for_byte() {
    let bytes = vec![77, 0, 2, 5, 6];
    let decoded = decode_options(&bytes, 0, bytes.len()).unwrap();
    let mut again = Vec::new();
    encode_options_into(&decoded, &mut again);
    assert_eq!(again, bytes);
}

#[test]
fn socks5_reply_round_trip() {
    let bound = Address { host: Host::Ipv4(vec![10, 0, 0, 1]), port: 4242 };
    let frame = socks5::encode_reply(0, &bound);
    let (code, a) = socks5::decode_reply(&frame).unwrap();
    assert_eq!(code, 0);
    assert_eq!(a.port, 4242);
    match a.host {
        Host::Ipv4(b) => assert_eq!(b, vec![10, 0, 0, 1]),
        _ => panic!("wrong variant"),
    }
}

#[test]
fn socks5_reply_rejects_trailing_bytes() {
    let bound = Address { host: Host::Ipv4(vec![10, 0, 0, 1]), port: 4242 };
    let mut frame = socks5::encode_reply(0, &bound);
    frame.push(0);
    assert_eq!(socks5::decode_reply(&frame).unwrap_err(), SocksError::MalformedFrame);
}

#[test]
fn socks6_request_round_trip() {
    let dest = Address { host: Host::Domain(b"dest.example".to_vec()), port: 443 };
    let opts = vec![
        SocksOption::ChainHop(ProxyAddress::new(b"next".to_vec(), 1081, None)),
        SocksOption::Unrecognized { kind: 99, value: vec![1] },
    ];
    let q = socks6::Socks6Request::new(1, dest, 512, opts);
    let frame = q.into_socks_bytes();
    let d = socks6::decode_request(&frame).unwrap();
    assert_eq!(d.command, 1);
    assert_eq!(d.initial_data_length, 512);
    assert_eq!(d.options.len(), 2);
    match &d.destination.host {
        Host::Domain(b) => assert_eq!(b, &b"dest.example".to_vec()),
        _ => panic!("wrong variant"),
    }
    assert_eq!(d.destination.port, 443);
}

#[test]
fn socks6_request_rejects_wrong_version() {
    let dest = Address { host: Host::Ipv4(vec![1, 2, 3, 4]), port: 80 };
    let q = socks6::Socks6Request::new(1, dest, 0, vec![]);
    let mut frame = q.into_socks_bytes();
    frame[0] = 5;
    assert_eq!(socks6::decode_request(&frame).unwrap_err(), SocksError::MalformedFrame);
}

#[test]
fn socks6_reply_round_trip() {
    let bound = Address { host: Host::Ipv6((0..16).collect()), port: 8080 };
    let frame = socks6::encode_reply(&socks6::Socks6Reply::Success, &bound, &vec![]);
    let (code, a, opts) = socks6::decode_reply(&frame).unwrap();
    assert_eq!(code, 0);
    assert_eq!(a.port, 8080);
    assert!(opts.is_empty());
}

#[test]
fn socks6_auth_ack_bytes() {
    assert_eq!(socks6::encode_no_authentication(), vec![6, 0]);
}
