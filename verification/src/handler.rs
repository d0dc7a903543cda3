//! The inbound SOCKS6 relay's decision logic.
//!
//! For each decoded inbound request the handler resolves the hop chain,
//! decides whether the outbound side is reached directly or through the
//! chain's first hop (handing that hop options that encode exactly the
//! remaining chain), and fixes the order of the setup's tail: forward the
//! announced initial data first, then send the success reply. The I/O
//! layer around this crate opens the connections and moves the bytes.

use vstd::prelude::*;

use crate::addresses::{copy_hop, hop_views, Address, AddressView, Host, HostView, ProxyAddress, ProxyAddressView};
use crate::chain::{chain_hops_of, chain_options, declared_chain, ProxyChain};
use crate::options::{option_views, SocksOption, SocksOptionView};
use crate::socks6::{auth_ack_encoded, encode_no_authentication, encode_reply, reply_encoded,
    Socks6Reply, Socks6Request};

verus! {

/// How the outbound side of a relayed connection is reached.
pub enum RouteDecision {
    /// Connect directly to the request's destination: no hop remains.
    Direct,
    /// Connect through `hop`, forwarding `forward_options` so the next
    /// relay sees exactly the hops after itself.
    ViaHop { hop: ProxyAddress, forward_options: Vec<SocksOption> },
}

/// One step of the relay's setup after the outbound side is connected.
#[derive(Clone, Copy, Debug, PartialEq, Eq, Structural)]
pub enum RelayStep {
    /// Read exactly this many bytes from the inbound stream and write
    /// them to the outbound stream.
    ForwardInitialData { length: u16 },
    /// Send the success reply on the inbound stream.
    ReplySuccess,
}

/// The all-zero IPv4 address a relay reports as its bound address.
pub open spec fn spec_null_address() -> AddressView {
    AddressView { host: HostView::Ipv4(seq![0u8, 0u8, 0u8, 0u8]), port: 0 }
}

/// Builds the all-zero IPv4 address.
pub fn null_address() -> (r: Address)
    ensures
        r@ == spec_null_address(),
        r@.wf(),
{
    let mut b: Vec<u8> = Vec::new();
    b.push(0u8);
    b.push(0u8);
    b.push(0u8);
    b.push(0u8);
    proof {
        assert(b@ =~= seq![0u8, 0u8, 0u8, 0u8]);
    }
    Address { host: Host::Ipv4(b), port: 0 }
}

/// The inbound SOCKS6 relay: its statically configured hop chain.
#[derive(Clone, Debug)]
pub struct Socks6Handler {
    static_links: Vec<ProxyAddress>,
}

impl View for Socks6Handler {
    type V = Seq<ProxyAddressView>;

    closed spec fn view(&self) -> Seq<ProxyAddressView> {
        hop_views(self.static_links@)
    }
}

impl Default for Socks6Handler {
    /// A relay with no static hops: it connects directly to destinations.
    fn default() -> (r: Self)
        ensures
            r@ == Seq::<ProxyAddressView>::empty(),
    {
        let r = Socks6Handler { static_links: Vec::new() };
        proof {
            assert(r@ =~= Seq::<ProxyAddressView>::empty());
        }
        r
    }
}

impl Socks6Handler {
    /// Every statically configured hop is well-formed.
    pub open spec fn wf(self) -> bool {
        forall|i: int| 0 <= i < self@.len() ==> #[trigger] self@[i].wf()
    }

    /// A relay that forwards through `static_links`, in order; an empty
    /// list makes it the last hop, connecting directly.
    pub fn new(static_links: Vec<ProxyAddress>) -> (r: Self)
        ensures
            r@ == hop_views(static_links@),
    {
        Socks6Handler { static_links }
    }

    /// The routing policy: hops declared by the request's forwarding
    /// options take precedence; otherwise the statically configured list.
    pub open spec fn resolved_chain(self, request_options: Seq<SocksOptionView>)
        -> Seq<ProxyAddressView>
    {
        if chain_hops_of(request_options).len() > 0 {
            chain_hops_of(request_options)
        } else {
            self@
        }
    }

    /// Resolves the chain the connection of `request` has still to
    /// traverse.
    pub fn resolve_chain(&self, request: &Socks6Request) -> (r: ProxyChain)
        ensures
            r@ == self.resolved_chain(request@.options),
    {
        let declared = declared_chain(&request.options);
        if declared.len() > 0 {
            ProxyChain::new(declared)
        } else {
            let mut copied: Vec<ProxyAddress> = Vec::new();
            let n = self.static_links.len();
            let mut i: usize = 0;
            while i < n
                invariant
                    i <= n == self.static_links@.len(),
                    hop_views(copied@) == hop_views(self.static_links@).subrange(0, i as int),
                decreases n - i,
            {
                let c = copy_hop(&self.static_links[i]);
                proof {
                    assert(hop_views(copied@.push(c)) =~= hop_views(copied@).push(c@));
                    assert(hop_views(self.static_links@).subrange(0, i + 1)
                        =~= hop_views(self.static_links@).subrange(0, i as int).push(
                            hop_views(self.static_links@)[i as int]));
                }
                copied.push(c);
                i = i + 1;
            }
            proof {
                assert(hop_views(self.static_links@).subrange(0, n as int)
                    =~= hop_views(self.static_links@));
            }
            ProxyChain::new(copied)
        }
    }

    /// Decides the route for `request`: through the resolved chain's first
    /// hop, handing it options that encode exactly the remaining hops, or
    /// directly to the destination when no hop remains.
    pub fn route(&self, request: &Socks6Request) -> (r: RouteDecision)
        ensures
            ({
                let resolved = self.resolved_chain(request@.options);
                &&& resolved.len() == 0 ==> r is Direct
                &&& resolved.len() > 0 ==> (r matches RouteDecision::ViaHop { hop, forward_options }
                    && hop@ == resolved[0]
                    && option_views(forward_options@) == chain_options(resolved.skip(1)))
            }),
    {
        let mut resolved = self.resolve_chain(request);
        match resolved.next_link() {
            Some(hop) => {
                let forward_options = resolved.as_options();
                RouteDecision::ViaHop { hop, forward_options }
            }
            None => RouteDecision::Direct,
        }
    }

    /// The order of the setup's tail: when the request announced initial
    /// data, exactly that many bytes are forwarded to the outbound stream
    /// before the success reply is sent; otherwise the reply is sent at
    /// once.
    pub fn setup_steps(&self, request: &Socks6Request) -> (r: Vec<RelayStep>)
        ensures
            request@.initial_data_length > 0 ==> r@ == seq![
                RelayStep::ForwardInitialData { length: request@.initial_data_length },
                RelayStep::ReplySuccess,
            ],
            request@.initial_data_length == 0 ==> r@ == seq![RelayStep::ReplySuccess],
    {
        let mut steps: Vec<RelayStep> = Vec::new();
        if request.initial_data_length > 0 {
            steps.push(RelayStep::ForwardInitialData { length: request.initial_data_length });
        }
        steps.push(RelayStep::ReplySuccess);
        proof {
            if request@.initial_data_length > 0 {
                assert(steps@ =~= seq![
                    RelayStep::ForwardInitialData { length: request@.initial_data_length },
                    RelayStep::ReplySuccess,
                ]);
            } else {
                assert(steps@ =~= seq![RelayStep::ReplySuccess]);
            }
        }
        steps
    }

    /// The acknowledgment sent to the inbound peer right after its request
    /// is decoded: this relay never demands credentials from inbound
    /// peers.
    pub fn no_auth_frame(&self) -> (r: Vec<u8>)
        ensures
            r@ == auth_ack_encoded(),
    {
        encode_no_authentication()
    }

    /// The success frame sent once the outbound side is set up and any
    /// initial data has been forwarded.
    pub fn success_frame(&self) -> (r: Vec<u8>)
        ensures
            r@ == reply_encoded(Socks6Reply::Success.spec_code(), spec_null_address(),
                Seq::<SocksOptionView>::empty()),
    {
        let opts: Vec<SocksOption> = Vec::new();
        let bound = null_address();
        proof {
            assert(option_views(opts@) =~= Seq::<SocksOptionView>::empty());
        }
        encode_reply(&Socks6Reply::Success, &bound, &opts)
    }

    /// The refusal frame written to an inbound peer whose request is not
    /// served; nothing else is sent afterwards.
    pub fn refusal_frame(&self) -> (r: Vec<u8>)
        ensures
            r@ == reply_encoded(Socks6Reply::ConnectionRefused.spec_code(), spec_null_address(),
                Seq::<SocksOptionView>::empty()),
    {
        let opts: Vec<SocksOption> = Vec::new();
        let bound = null_address();
        proof {
            assert(option_views(opts@) =~= Seq::<SocksOptionView>::empty());
        }
        encode_reply(&Socks6Reply::ConnectionRefused, &bound, &opts)
    }
}

} // verus!
