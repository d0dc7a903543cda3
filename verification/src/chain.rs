//! The proxy chain: the ordered hops a relayed connection has still to
//! traverse.
//!
//! A chain is consumed from the front, one hop per relay. After removing
//! the hop it connects through, a relay re-encodes the remainder as
//! forwarding options for the next relay, so every relay sees exactly the
//! hops after itself and never those before it.

use vstd::prelude::*;

use crate::addresses::{copy_hop, hop_views, ProxyAddress, ProxyAddressView};
use crate::options::{option_views, SocksOption, SocksOptionView};

verus! {

/// The options that forward `hops` to the next relay, one option per hop,
/// in order.
pub open spec fn chain_options(hops: Seq<ProxyAddressView>) -> Seq<SocksOptionView> {
    hops.map_values(|h: ProxyAddressView| SocksOptionView::ChainHop(h))
}

/// The hops declared by an option list's forwarding options, in order,
/// ignoring every other option.
pub open spec fn chain_hops_of(opts: Seq<SocksOptionView>) -> Seq<ProxyAddressView>
    decreases opts.len(),
{
    if opts.len() == 0 {
        Seq::empty()
    } else {
        let rest = chain_hops_of(opts.skip(1));
        match opts[0] {
            SocksOptionView::ChainHop(h) => seq![h] + rest,
            _ => rest,
        }
    }
}

/// Reading forwarded chain options back yields exactly the hops they
/// encode: a relay hands the next relay precisely the chain's remainder.
pub proof fn lemma_chain_options_round_trip(hops: Seq<ProxyAddressView>)
    ensures
        chain_hops_of(chain_options(hops)) == hops,
    decreases hops.len(),
{
    if hops.len() == 0 {
        assert(chain_hops_of(chain_options(hops)) =~= hops);
    } else {
        lemma_chain_options_round_trip(hops.skip(1));
        assert(chain_options(hops).skip(1) =~= chain_options(hops.skip(1)));
        assert(chain_options(hops)[0] == SocksOptionView::ChainHop(hops[0]));
        assert(seq![hops[0]] + hops.skip(1) =~= hops);
    }
}

/// Unfolds `chain_hops_of` one position at a time.
pub proof fn lemma_chain_hops_step(opts: Seq<SocksOptionView>, i: int)
    requires
        0 <= i < opts.len(),
    ensures
        chain_hops_of(opts.skip(i)) == (match opts[i] {
            SocksOptionView::ChainHop(h) => seq![h] + chain_hops_of(opts.skip(i + 1)),
            _ => chain_hops_of(opts.skip(i + 1)),
        }),
{
    assert(opts.skip(i)[0] == opts[i]);
    assert(opts.skip(i).skip(1) =~= opts.skip(i + 1));
}

/// Collects the hops declared by `options`, in order.
pub fn declared_chain(options: &Vec<SocksOption>) -> (r: Vec<ProxyAddress>)
    ensures
        hop_views(r@) == chain_hops_of(option_views(options@)),
{
    let ghost all = option_views(options@);
    let mut acc: Vec<ProxyAddress> = Vec::new();
    let n = options.len();
    let mut i: usize = 0;
    proof {
        assert(all.skip(0) =~= all);
        assert(hop_views(acc@) + chain_hops_of(all) =~= chain_hops_of(all));
    }
    while i < n
        invariant
            i <= n == options@.len(),
            all == option_views(options@),
            chain_hops_of(all) == hop_views(acc@) + chain_hops_of(all.skip(i as int)),
        decreases n - i,
    {
        proof {
            lemma_chain_hops_step(all, i as int);
            assert(all[i as int] == options@[i as int]@);
        }
        match &options[i] {
            SocksOption::ChainHop(h) => {
                let c = copy_hop(h);
                proof {
                    assert(hop_views(acc@.push(c)) =~= hop_views(acc@).push(c@));
                    assert(hop_views(acc@).push(c@) + chain_hops_of(all.skip(i + 1))
                        =~= hop_views(acc@) + (seq![c@] + chain_hops_of(all.skip(i + 1))));
                }
                acc.push(c);
            }
            _ => {}
        }
        i = i + 1;
    }
    proof {
        assert(all.skip(n as int) =~= Seq::<SocksOptionView>::empty());
        assert(hop_views(acc@) + chain_hops_of(all.skip(n as int)) =~= hop_views(acc@));
    }
    acc
}

/// The ordered hops a relayed connection has still to traverse.
#[derive(Clone, Debug)]
pub struct ProxyChain {
    hops: Vec<ProxyAddress>,
}

impl View for ProxyChain {
    type V = Seq<ProxyAddressView>;

    closed spec fn view(&self) -> Seq<ProxyAddressView> {
        hop_views(self.hops@)
    }
}

impl ProxyChain {
    /// Every remaining hop is well-formed.
    pub open spec fn wf(self) -> bool {
        forall|i: int| 0 <= i < self@.len() ==> #[trigger] self@[i].wf()
    }

    /// A chain of exactly `hops`, to be traversed front to back.
    pub fn new(hops: Vec<ProxyAddress>) -> (r: Self)
        ensures
            r@ == hop_views(hops@),
    {
        ProxyChain { hops }
    }

    /// How many hops remain.
    pub fn len(&self) -> (r: usize)
        ensures
            r == self@.len(),
    {
        self.hops.len()
    }

    /// Removes and returns the next hop to traverse — the front of the
    /// chain — leaving exactly the rest; `None` once no hop remains.
    pub fn next_link(&mut self) -> (r: Option<ProxyAddress>)
        ensures
            old(self)@.len() == 0 ==> r is None && final(self)@ == old(self)@,
            old(self)@.len() > 0 ==> (r matches Some(h) && h@ == old(self)@[0]
                && final(self)@ == old(self)@.skip(1)),
    {
        if self.hops.len() == 0 {
            None
        } else {
            let h = self.hops.remove(0);
            proof {
                assert(hop_views(self.hops@) =~= hop_views(old(self).hops@).skip(1));
            }
            Some(h)
        }
    }

    /// Re-encodes the remaining hops as forwarding options for the next
    /// relay: one option per hop, in order, and nothing else.
    pub fn as_options(&self) -> (r: Vec<SocksOption>)
        ensures
            option_views(r@) == chain_options(self@),
    {
        let mut acc: Vec<SocksOption> = Vec::new();
        let n = self.hops.len();
        let mut i: usize = 0;
        while i < n
            invariant
                i <= n == self.hops@.len(),
                option_views(acc@) == chain_options(self@.subrange(0, i as int)),
            decreases n - i,
        {
            let c = copy_hop(&self.hops[i]);
            let o = SocksOption::ChainHop(c);
            proof {
                assert(option_views(acc@.push(o)) =~= option_views(acc@).push(o@));
                assert(chain_options(self@.subrange(0, i + 1))
                    =~= chain_options(self@.subrange(0, i as int)).push(
                        SocksOptionView::ChainHop(self@[i as int])));
            }
            acc.push(o);
            i = i + 1;
        }
        proof {
            assert(self@.subrange(0, n as int) =~= self@);
        }
        acc
    }
}

} // verus!
