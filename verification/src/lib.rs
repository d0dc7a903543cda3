//! A SOCKS proxy toolkit: wire codecs for the SOCKS5 and SOCKS6 protocols,
//! the outbound client handshake state machines, and the inbound relay
//! decision logic, including multi-hop proxy chaining.
//!
//! The crate is transport-agnostic: every function here works on plain
//! values (byte vectors, addresses, credentials) and never performs I/O.
//! A caller drives the handshakes by sending the frames these functions
//! build and feeding back the bytes read from the peer.

pub mod addresses;
pub mod bytes;
pub mod chain;
pub mod errors;
pub mod handler;
pub mod options;
pub mod socks5;
pub mod socks6;

use vstd::prelude::*;

verus! {

} // verus!
