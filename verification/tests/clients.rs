//! The client handshake state machines, phase by phase.

use socksx::addresses::{Address, Credentials, Host};
use socksx::errors::SocksError;
use socksx::socks5::Socks5Client;
use socksx::socks6::Socks6Client;

fn creds(u: &[u8], p: &[u8]) -> Option<Credentials> {
    Some(Credentials::new(u.to_vec(), p.to_vec()))
}

#[test]
fn greeting_without_credentials() {
    let c = Socks5Client::new(b"proxy".to_vec(), 1080, None);
    assert_eq!(c.greeting(), vec![5, 1, 0]);
}

#[test]
fn greeting_with_credentials() {
    let c = Socks5Client::new(b"proxy".to_vec(), 1080, creds(b"u", b"p"));
    assert_eq!(c.greeting(), vec![5, 2, 0, 2]);
}

#[test]
fn method_selection_no_auth() {
    let c = Socks5Client::new(b"proxy".to_vec(), 1080, None);
    assert_eq!(c.on_method_selection(5, 0), Ok(0));
}

#[test]
fn method_selection_username_password() {
    let c = Socks5Client::new(b"proxy".to_vec(), 1080, creds(b"u", b"p"));
    assert_eq!(c.on_method_selection(5, 2), Ok(2));
}

#[test]
fn method_selection_version_mismatch() {
    let c = Socks5Client::new(b"proxy".to_vec(), 1080, None);
    assert_eq!(c.on_method_selection(4, 0), Err(SocksError::ProtocolVersionMismatch));
}

#[test]
fn method_selection_none_acceptable() {
    let c = Socks5Client::new(b"proxy".to_vec(), 1080, creds(b"u", b"p"));
    assert_eq!(c.on_method_selection(5, 255), Err(SocksError::NoAcceptableAuthMethod));
}

#[test]
fn method_selection_auth_demanded_without_credentials() {
    let c = Socks5Client::new(b"proxy".to_vec(), 1080, None);
    assert_eq!(c.on_method_selection(5, 2), Err(SocksError::AuthenticationRequired));
}

#[test]
fn method_selection_unsupported_method() {
    let c = Socks5Client::new(b"proxy".to_vec(), 1080, None);
    assert_eq!(c.on_method_selection(5, 1), Err(SocksError::UnsupportedAuthMethod));
}

#[test]
fn oversized_username_is_rejected_before_io() {
    let big = vec![97u8; 256];
    let c = Socks5Client::new(b"proxy".to_vec(), 1080, Some(Credentials::new(big, b"p".to_vec())));
    assert_eq!(c.validate(), Err(SocksError::InvalidCredentials));
}

#[test]
fn oversized_password_is_rejected_before_io() {
    let big = vec![97u8; 300];
    let c = Socks5Client::new(b"proxy".to_vec(), 1080, Some(Credentials::new(b"u".to_vec(), big)));
    assert_eq!(c.validate(), Err(SocksError::InvalidCredentials));
}

#[test]
fn valid_credentials_pass_validation() {
    let limit = vec![97u8; 255];
    let c = Socks5Client::new(b"proxy".to_vec(), 1080,
        Some(Credentials::new(limit.clone(), limit)));
    assert_eq!(c.validate(), Ok(()));
}

#[test]
fn auth_frame_carries_credentials() {
    let c = Socks5Client::new(b"proxy".to_vec(), 1080, creds(b"ab", b"c"));
    assert_eq!(c.auth_frame().unwrap(), vec![1, 2, 97, 98, 1, 99]);
}

#[test]
fn auth_frame_without_credentials_fails() {
    let c = Socks5Client::new(b"proxy".to_vec(), 1080, None);
    assert_eq!(c.auth_frame().unwrap_err(), SocksError::AuthenticationRequired);
}

#[test]
fn auth_reply_failure() {
    let c = Socks5Client::new(b"proxy".to_vec(), 1080, creds(b"u", b"p"));
    assert_eq!(c.on_auth_reply(1, 1), Err(SocksError::AuthenticationFailed));
    assert_eq!(c.on_auth_reply(2, 0), Err(SocksError::ProtocolVersionMismatch));
    assert_eq!(c.on_auth_reply(1, 0), Ok(()));
}

#[test]
fn connect_request_bytes() {
    let c = Socks5Client::new(b"proxy".to_vec(), 1080, None);
    let dest = Address { host: Host::Ipv4(vec![1, 2, 3, 4]), port: 80 };
    assert_eq!(c.connect_request(dest), vec![5, 1, 0, 1, 1, 2, 3, 4, 0, 80]);
}

#[test]
fn socks5_reply_success_yields_bound_address() {
    let c = Socks5Client::new(b"proxy".to_vec(), 1080, None);
    let frame = vec![5, 0, 0, 1, 0, 0, 0, 0, 0, 0];
    let bound = c.on_reply(&frame).unwrap();
    assert_eq!(bound.port, 0);
}

#[test]
fn socks5_reply_failure_code_is_rejected() {
    let c = Socks5Client::new(b"proxy".to_vec(), 1080, None);
    let frame = vec![5, 5, 0, 1, 0, 0, 0, 0, 0, 0];
    assert_eq!(c.on_reply(&frame).unwrap_err(), SocksError::RequestRejected);
}

#[test]
fn socks5_reply_malformed_is_rejected() {
    let c = Socks5Client::new(b"proxy".to_vec(), 1080, None);
    assert_eq!(c.on_reply(&vec![5, 0]).unwrap_err(), SocksError::MalformedFrame);
}

#[test]
fn socks6_handshake_request_bytes() {
    let c = Socks6Client::new(b"proxy".to_vec(), 1080, None);
    let dest = Address { host: Host::Ipv4(vec![9, 9, 9, 9]), port: 443 };
    let bytes = c.handshake_request(dest, &vec![7, 8], vec![]).unwrap();
    assert_eq!(bytes, vec![
        6, 1,
        1, 9, 9, 9, 9, 1, 187,
        0, 2,
        0, 5,
        2, 0, 2, 0, 2,
        7, 8,
    ]);
}

#[test]
fn socks6_handshake_advertises_username_password() {
    let c = Socks6Client::new(b"proxy".to_vec(), 1080, creds(b"u", b"p"));
    let dest = Address { host: Host::Ipv4(vec![9, 9, 9, 9]), port: 443 };
    let bytes = c.handshake_request(dest, &vec![], vec![]).unwrap();
    assert_eq!(bytes, vec![
        6, 1,
        1, 9, 9, 9, 9, 1, 187,
        0, 0,
        0, 6,
        2, 0, 3, 0, 0, 2,
    ]);
}

#[test]
fn socks6_oversized_credentials_fail_before_io() {
    let big = vec![97u8; 256];
    let c = Socks6Client::new(b"proxy".to_vec(), 1080,
        Some(Credentials::new(big, b"p".to_vec())));
    assert_eq!(c.validate(), Err(SocksError::InvalidCredentials));
    let dest = Address { host: Host::Ipv4(vec![9, 9, 9, 9]), port: 443 };
    assert_eq!(c.handshake_request(dest, &vec![], vec![]).unwrap_err(),
        SocksError::InvalidCredentials);
}

#[test]
fn socks6_initial_data_limit_enforced() {
    let c = Socks6Client::new(b"proxy".to_vec(), 1080, None);
    let dest = Address { host: Host::Ipv4(vec![9, 9, 9, 9]), port: 443 };
    let at_limit = vec![0u8; 16384];
    assert!(c.handshake_request(dest, &at_limit, vec![]).is_ok());
    let dest = Address { host: Host::Ipv4(vec![9, 9, 9, 9]), port: 443 };
    let too_big = vec![0u8; 16385];
    assert_eq!(c.handshake_request(dest, &too_big, vec![]).unwrap_err(),
        SocksError::InitialDataTooLarge);
}

#[test]
fn socks6_auth_ack_interpretation() {
    let c = Socks6Client::new(b"proxy".to_vec(), 1080, None);
    assert_eq!(c.on_auth_ack(6, 0), Ok(()));
    assert_eq!(c.on_auth_ack(5, 0), Err(SocksError::ProtocolVersionMismatch));
    assert_eq!(c.on_auth_ack(6, 1), Err(SocksError::AuthenticationFailed));
}

#[test]
fn socks6_reply_interpretation() {
    let c = Socks6Client::new(b"proxy".to_vec(), 1080, None);
    let ok_frame = vec![6, 0, 1, 0, 0, 0, 0, 0, 0, 0, 0];
    let (bound, opts) = c.on_reply(&ok_frame).unwrap();
    assert_eq!(bound.port, 0);
    assert!(opts.is_empty());
    let refused = vec![6, 1, 1, 0, 0, 0, 0, 0, 0, 0, 0];
    assert_eq!(c.on_reply(&refused).unwrap_err(), SocksError::RequestRejected);
    assert_eq!(c.on_reply(&vec![6]).unwrap_err(), SocksError::MalformedFrame);
}

#[test]
fn error_messages_are_distinct() {
    let all = [
        SocksError::InvalidCredentials,
        SocksError::ProtocolVersionMismatch,
        SocksError::UnsupportedAuthMethod,
        SocksError::NoAcceptableAuthMethod,
        SocksError::AuthenticationRequired,
        SocksError::AuthenticationFailed,
        SocksError::MalformedFrame,
        SocksError::RequestRejected,
        SocksError::InitialDataTooLarge,
    ];
    for i in 0..all.len() {
        for j in 0..all.len() {
            if i != j {
                assert_ne!(all[i].message(), all[j].message());
            }
        }
    }
}
