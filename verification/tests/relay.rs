//! The relay's routing, chain consumption, and setup ordering.

use socksx::addresses::{Address, Host, ProxyAddress};
use socksx::chain::ProxyChain;
use socksx::handler::{RelayStep, RouteDecision, Socks6Handler};
use socksx::options::SocksOption;
use socksx::socks6::{decode_request, Socks6Request};

fn hop(name: &[u8], port: u16) -> ProxyAddress {
    ProxyAddress::new(name.to_vec(), port, None)
}

fn dest() -> Address {
    Address { host: Host::Domain(b"dest.example".to_vec()), port: 443 }
}

#[test]
fn chain_is_consumed_front_to_back() {
    let mut chain = ProxyChain::new(vec![hop(b"h1", 1), hop(b"h2", 2)]);
    assert_eq!(chain.len(), 2);
    let first = chain.next_link().unwrap();
    assert_eq!(first.host, b"h1".to_vec());
    assert_eq!(chain.len(), 1);
    let second = chain.next_link().unwrap();
    assert_eq!(second.host, b"h2".to_vec());
    assert!(chain.next_link().is_none());
}

#[test]
fn as_options_encodes_remaining_hops_only() {
    let mut chain = ProxyChain::new(vec![hop(b"h1", 1), hop(b"h2", 2)]);
    chain.next_link().unwrap();
    let opts = chain.as_options();
    assert_eq!(opts.len(), 1);
    match &opts[0] {
        SocksOption::ChainHop(h) => assert_eq!(h.host, b"h2".to_vec()),
        _ => panic!("wrong option"),
    }
}

#[test]
fn empty_static_chain_routes_directly() {
    let handler = Socks6Handler::new(vec![]);
    let request = Socks6Request::new(1, dest(), 0, vec![]);
    match handler.route(&request) {
        RouteDecision::Direct => {}
        _ => panic!("expected a direct route"),
    }
}

#[test]
fn each_hop_receives_exactly_the_hops_after_itself() {
    // First relay: static chain [h1, h2], nothing declared in the request.
    let handler = Socks6Handler::new(vec![hop(b"h1", 1081), hop(b"h2", 1082)]);
    let request = Socks6Request::new(1, dest(), 0, vec![]);
    let forward = match handler.route(&request) {
        RouteDecision::ViaHop { hop: first, forward_options } => {
            assert_eq!(first.host, b"h1".to_vec());
            assert_eq!(forward_options.len(), 1);
            match &forward_options[0] {
                SocksOption::ChainHop(h) => assert_eq!(h.host, b"h2".to_vec()),
                _ => panic!("wrong option"),
            }
            forward_options
        }
        _ => panic!("expected to route via h1"),
    };

    // Second relay (no static hops) sees the forwarded options on the wire.
    let wire = Socks6Request::new(1, dest(), 0, forward).into_socks_bytes();
    let request_at_h1 = decode_request(&wire).unwrap();
    let relay_at_h1 = Socks6Handler::default();
    let forward = match relay_at_h1.route(&request_at_h1) {
        RouteDecision::ViaHop { hop: second, forward_options } => {
            assert_eq!(second.host, b"h2".to_vec());
            assert!(forward_options.is_empty());
            forward_options
        }
        _ => panic!("expected to route via h2"),
    };

    // Third relay receives an empty chain and connects directly.
    let wire = Socks6Request::new(1, dest(), 0, forward).into_socks_bytes();
    let request_at_h2 = decode_request(&wire).unwrap();
    let relay_at_h2 = Socks6Handler::default();
    match relay_at_h2.route(&request_at_h2) {
        RouteDecision::Direct => {}
        _ => panic!("expected a direct route"),
    }
}

#[test]
fn declared_chain_takes_precedence_over_static() {
    let handler = Socks6Handler::new(vec![hop(b"static", 1)]);
    let declared = vec![SocksOption::ChainHop(hop(b"declared", 2))];
    let request = Socks6Request::new(1, dest(), 0, declared);
    match handler.route(&request) {
        RouteDecision::ViaHop { hop: h, forward_options } => {
            assert_eq!(h.host, b"declared".to_vec());
            assert!(forward_options.is_empty());
        }
        _ => panic!("expected to route via the declared hop"),
    }
}

#[test]
fn initial_data_is_forwarded_before_the_success_reply() {
    let handler = Socks6Handler::default();
    let request = Socks6Request::new(1, dest(), 5, vec![]);
    let steps = handler.setup_steps(&request);
    assert_eq!(steps, vec![
        RelayStep::ForwardInitialData { length: 5 },
        RelayStep::ReplySuccess,
    ]);
}

#[test]
fn no_initial_data_means_immediate_reply() {
    let handler = Socks6Handler::default();
    let request = Socks6Request::new(1, dest(), 0, vec![]);
    assert_eq!(handler.setup_steps(&request), vec![RelayStep::ReplySuccess]);
}

#[test]
fn declared_initial_data_length_survives_the_wire() {
    let request = Socks6Request::new(1, dest(), 300, vec![]);
    let wire = request.into_socks_bytes();
    let decoded = decode_request(&wire).unwrap();
    assert_eq!(decoded.initial_data_length, 300);
}

#[test]
fn handler_reply_frames() {
    let handler = Socks6Handler::default();
    assert_eq!(handler.no_auth_frame(), vec![6, 0]);
    assert_eq!(handler.success_frame(), vec![6, 0, 1, 0, 0, 0, 0, 0, 0, 0, 0]);
    assert_eq!(handler.refusal_frame(), vec![6, 1, 1, 0, 0, 0, 0, 0, 0, 0, 0]);
}
