//! Routing agents: which neighbours a bundle is offered to.

use crate::bundlepack::BundlePack;
use crate::eid::{clone_eid, same_eid};
use crate::peer::{peer_eids, DtnPeer, PeerTable};
use bp7::EndpointID;
use vstd::prelude::*;

verus! {

/// A note that a neighbour is known to hold a bundle.
#[derive(Debug)]
pub struct Holding {
    /// Identifier of the bundle.
    pub bundle_id: String,
    /// Endpoint identifier of the neighbour that holds it.
    pub peer: EndpointID,
}

/// The notes say that `peer` holds the bundle `bundle_id`.
pub open spec fn is_holder(history: Seq<Holding>, bundle_id: Seq<char>, peer: EndpointID) -> bool {
    exists|i: int|
        0 <= i < history.len() && (#[trigger] history[i]).bundle_id@ == bundle_id
            && history[i].peer == peer
}

/// The neighbours that the notes do not list as holders of `bundle_id`, as a
/// function of the peer.
pub open spec fn lacking(history: Seq<Holding>, bundle_id: Seq<char>) -> spec_fn(DtnPeer) -> bool {
    |peer: DtnPeer| !is_holder(history, bundle_id, peer.eid)
}

/// Offers a bundle to every known neighbour that is not known to hold it
/// already.
#[derive(Debug)]
pub struct EpidemicRoutingAgent {
    /// Which neighbour is known to hold which bundle.
    pub history: Vec<Holding>,
}

impl EpidemicRoutingAgent {
    /// An agent that knows of no holder yet.
    pub fn new() -> (agent: EpidemicRoutingAgent)
        ensures
            agent.history@ == Seq::<Holding>::empty(),
    {
        EpidemicRoutingAgent { history: Vec::new() }
    }

    /// Whether `peer` is known to hold the bundle `bundle_id`.
    pub fn knows(&self, bundle_id: &String, peer: &EndpointID) -> (known: bool)
        ensures
            known == is_holder(self.history@, bundle_id@, *peer),
    {
        let mut i: usize = 0;
        while i < self.history.len()
            invariant
                i <= self.history.len(),
                forall|j: int|
                    0 <= j < i ==> !((#[trigger] self.history[j]).bundle_id@ == bundle_id@
                        && self.history[j].peer == *peer),
            decreases self.history.len() - i,
        {
            if self.history[i].bundle_id == *bundle_id && same_eid(&self.history[i].peer, peer) {
                return true;
            }
            i = i + 1;
        }
        false
    }

    /// Notes that `peer` holds the bundle `bundle_id`, unless that is known
    /// already.
    pub fn record_holder(&mut self, bundle_id: String, peer: EndpointID)
        ensures
            final(self).history@ == if is_holder(old(self).history@, bundle_id@, peer) {
                old(self).history@
            } else {
                old(self).history@.push(Holding { bundle_id, peer })
            },
            is_holder(final(self).history@, bundle_id@, peer),
    {
        if !self.knows(&bundle_id, &peer) {
            self.history.push(Holding { bundle_id, peer });
            assert(self.history[self.history.len() - 1].peer == peer);
        }
    }

    /// The neighbours to offer `bundle` to: every known neighbour that is not
    /// known to hold it, in the order of the peer table.
    pub fn select_targets(&self, bundle: &BundlePack, peers: &PeerTable) -> (targets: Vec<
        EndpointID,
    >)
        ensures
            targets@ == peer_eids(peers@.filter(lacking(self.history@, bundle.id@))),
    {
        let ghost wanted = lacking(self.history@, bundle.id@);
        let mut targets: Vec<EndpointID> = Vec::new();
        let mut i: usize = 0;
        while i < peers.peers.len()
            invariant
                i <= peers.peers.len(),
                wanted == lacking(self.history@, bundle.id@),
                targets@ == peer_eids(peers@.take(i as int).filter(wanted)),
            decreases peers.peers.len() - i,
        {
            proof {
                let seen = peers@.take(i as int);
                assert(peers@.take(i + 1) =~= seen.push(peers@[i as int]));
                seen.lemma_filter_push(peers@[i as int], wanted);
                assert(peer_eids(seen.filter(wanted).push(peers@[i as int])) =~= peer_eids(
                    seen.filter(wanted),
                ).push(peers@[i as int].eid));
            }
            if !self.knows(&bundle.id, &peers.peers[i].eid) {
                targets.push(clone_eid(&peers.peers[i].eid));
            }
            i = i + 1;
        }
        proof {
            assert(peers@.take(peers@.len() as int) =~= peers@);
        }
        targets
    }
}

/// Offers a bundle to every known neighbour.
#[derive(Debug)]
pub struct FloodingRoutingAgent {}

impl FloodingRoutingAgent {
    /// The flooding agent; it keeps no state.
    pub fn new() -> (agent: FloodingRoutingAgent)
        ensures
            agent == (FloodingRoutingAgent {  }),
    {
        FloodingRoutingAgent {  }
    }

    /// The neighbours to offer a bundle to: all of them, in the order of the
    /// peer table.
    pub fn select_targets(&self, bundle: &BundlePack, peers: &PeerTable) -> (targets: Vec<
        EndpointID,
    >)
        ensures
            targets@ == peer_eids(peers@),
    {
        let mut targets: Vec<EndpointID> = Vec::new();
        let mut i: usize = 0;
        while i < peers.peers.len()
            invariant
                i <= peers.peers.len(),
                targets@ == peer_eids(peers@.take(i as int)),
            decreases peers.peers.len() - i,
        {
            proof {
                assert(peer_eids(peers@.take(i + 1)) =~= peer_eids(peers@.take(i as int)).push(
                    peers@[i as int].eid,
                ));
            }
            targets.push(clone_eid(&peers.peers[i].eid));
            i = i + 1;
        }
        proof {
            assert(peers@.take(peers@.len() as int) =~= peers@);
        }
        targets
    }
}

/// The routing strategy of a node. It is chosen when the node is set up and
/// stays for the node's lifetime.
#[derive(Debug)]
pub enum RoutingAgentsEnum {
    /// Offer a bundle to neighbours not known to hold it.
    Epidemic(EpidemicRoutingAgent),
    /// Offer a bundle to all neighbours.
    Flooding(FloodingRoutingAgent),
}

impl RoutingAgentsEnum {
    /// The endpoint identifiers of the neighbours this strategy offers the
    /// bundle `bundle_id` to when `peers` are the known neighbours.
    pub open spec fn targets(self, bundle_id: Seq<char>, peers: Seq<DtnPeer>) -> Seq<EndpointID> {
        match self {
            RoutingAgentsEnum::Epidemic(agent) => peer_eids(
                peers.filter(lacking(agent.history@, bundle_id)),
            ),
            RoutingAgentsEnum::Flooding(_) => peer_eids(peers),
        }
    }

    /// The neighbours to offer `bundle` to. The answer depends on nothing
    /// but the agent, the bundle's identifier and the peer table, and the
    /// peer table is left as it is. An empty answer is no error.
    pub fn select_targets(&self, bundle: &BundlePack, peers: &PeerTable) -> (targets: Vec<
        EndpointID,
    >)
        ensures
            targets@ == self.targets(bundle.id@, peers@),
    {
        match self {
            RoutingAgentsEnum::Epidemic(agent) => agent.select_targets(bundle, peers),
            RoutingAgentsEnum::Flooding(agent) => agent.select_targets(bundle, peers),
        }
    }
}

} // verus!
