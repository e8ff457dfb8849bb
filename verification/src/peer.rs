//! Known neighbours and their liveness.

use crate::eid::{first_position, is_first_at, lemma_first_position, same_eid};
use bp7::EndpointID;
use vstd::prelude::*;

verus! {

/// How a neighbour came to be known.
#[derive(Debug, Clone, Copy, PartialEq, Eq, Structural)]
pub enum PeerType {
    /// Configured by the administrator; never dropped for being silent.
    Static,
    /// Discovered on the network; dropped once it has been silent too long.
    Dynamic,
}

/// A known neighbour.
#[derive(Debug)]
pub struct DtnPeer {
    /// The neighbour's endpoint identifier; the peer table holds one record
    /// per identifier.
    pub eid: EndpointID,
    /// Transport address at which the neighbour was last reached.
    pub addr: String,
    /// How the neighbour came to be known.
    pub con_type: PeerType,
    /// When the neighbour was last heard from.
    pub last_contact: u64,
}

impl DtnPeer {
    /// The neighbour was heard from no longer than `timeout` before `now`.
    pub open spec fn valid_at(self, now: u64, timeout: u64) -> bool {
        now - self.last_contact <= timeout
    }

    /// The neighbour stays in the peer table at `now`: it is static, or it
    /// was heard from recently enough.
    pub open spec fn survives(self, now: u64, timeout: u64) -> bool {
        self.con_type == PeerType::Static || self.valid_at(now, timeout)
    }

    /// A record for a neighbour last heard from at `last_contact`.
    pub fn new(eid: EndpointID, addr: String, con_type: PeerType, last_contact: u64) -> (peer:
        DtnPeer)
        ensures
            peer == (DtnPeer { eid, addr, con_type, last_contact }),
    {
        DtnPeer { eid, addr, con_type, last_contact }
    }

    /// Whether the neighbour was heard from no longer than `timeout` before
    /// `now`. A contact that lies after `now` counts as recent.
    pub fn still_valid(&self, now: u64, timeout: u64) -> (valid: bool)
        ensures
            valid == self.valid_at(now, timeout),
    {
        now <= self.last_contact || now - self.last_contact <= timeout
    }
}

/// The predicate `survives` at a fixed time, as a function of the peer.
pub open spec fn survivor(now: u64, timeout: u64) -> spec_fn(DtnPeer) -> bool {
    |peer: DtnPeer| peer.survives(now, timeout)
}

/// The opposite of `survivor`.
pub open spec fn expired(now: u64, timeout: u64) -> spec_fn(DtnPeer) -> bool {
    |peer: DtnPeer| !peer.survives(now, timeout)
}

/// The endpoint identifiers of a sequence of peers, in order.
pub open spec fn peer_eids(peers: Seq<DtnPeer>) -> Seq<EndpointID> {
    peers.map_values(|peer: DtnPeer| peer.eid)
}

/// The neighbours the node currently knows, one record per endpoint
/// identifier, in the order in which they became known.
#[derive(Debug)]
pub struct PeerTable {
    /// The records.
    pub peers: Vec<DtnPeer>,
}

impl View for PeerTable {
    type V = Seq<DtnPeer>;

    open spec fn view(&self) -> Seq<DtnPeer> {
        self.peers@
    }
}

impl PeerTable {
    /// No endpoint identifier has two records.
    pub open spec fn wf(self) -> bool {
        peer_eids(self@).no_duplicates()
    }

    /// A table without records.
    pub fn new() -> (table: PeerTable)
        ensures
            table@ == Seq::<DtnPeer>::empty(),
            table.wf(),
    {
        PeerTable { peers: Vec::new() }
    }

    /// Number of known neighbours.
    pub fn len(&self) -> (n: usize)
        ensures
            n == self@.len(),
    {
        self.peers.len()
    }

    /// Index of the first record for `eid`.
    fn position(&self, eid: &EndpointID) -> (found: Option<usize>)
        ensures
            match found {
                Some(i) => first_position(peer_eids(self@), *eid) == Some(i as int),
                None => first_position(peer_eids(self@), *eid) is None,
            },
    {
        let mut i: usize = 0;
        while i < self.peers.len()
            invariant
                i <= self.peers.len(),
                forall|j: int| 0 <= j < i ==> peer_eids(self@)[j] != *eid,
            decreases self.peers.len() - i,
        {
            if same_eid(&self.peers[i].eid, eid) {
                proof {
                    assert(is_first_at(peer_eids(self@), *eid, i as int));
                    lemma_first_position(peer_eids(self@), *eid);
                }
                return Some(i);
            }
            i = i + 1;
        }
        proof {
            lemma_first_position(peer_eids(self@), *eid);
            assert(!peer_eids(self@).contains(*eid));
        }
        None
    }

    /// Whether the table holds a record for `eid`.
    pub fn contains(&self, eid: &EndpointID) -> (known: bool)
        ensures
            known == peer_eids(self@).contains(*eid),
    {
        proof {
            lemma_first_position(peer_eids(self@), *eid);
        }
        self.position(eid).is_some()
    }

    /// Records a contact: the neighbour's record replaces the one the table
    /// holds for the same endpoint identifier, or is added behind the others
    /// when there is none.
    pub fn insert(&mut self, peer: DtnPeer)
        ensures
            final(self)@ == match first_position(peer_eids(old(self)@), peer.eid) {
                Some(i) => old(self)@.update(i, peer),
                None => old(self)@.push(peer),
            },
            old(self).wf() ==> final(self).wf(),
    {
        proof {
            lemma_first_position(peer_eids(self@), peer.eid);
        }
        match self.position(&peer.eid) {
            Some(i) => {
                proof {
                    assert(peer_eids(self@.update(i as int, peer)) =~= peer_eids(self@));
                }
                self.peers.set(i, peer);
            },
            None => {
                proof {
                    assert(peer_eids(self@.push(peer)) =~= peer_eids(self@).push(peer.eid));
                }
                self.peers.push(peer);
            },
        }
    }
}

/// A record is in the table after a sweep exactly when it was there before
/// and survives.
pub proof fn lemma_sweep_membership(peers: Seq<DtnPeer>, peer: DtnPeer, now: u64, timeout: u64)
    ensures
        peers.filter(survivor(now, timeout)).contains(peer) <==> peers.contains(peer)
            && peer.survives(now, timeout),
{
    let keep = survivor(now, timeout);
    let kept = peers.filter(keep);
    if kept.contains(peer) {
        peers.lemma_filter_contains_rev(keep, peer);
        let i = choose|i: int| 0 <= i < kept.len() && kept[i] == peer;
        peers.lemma_filter_pred(keep, i);
    }
    if peers.contains(peer) && peer.survives(now, timeout) {
        let i = choose|i: int| 0 <= i < peers.len() && peers[i] == peer;
        peers.lemma_filter_contains(keep, i);
    }
}

/// A sweep never drops a static neighbour, however long ago it was last
/// heard from.
pub proof fn lemma_static_peers_are_kept(
    peers: Seq<DtnPeer>,
    peer: DtnPeer,
    now: u64,
    timeout: u64,
)
    requires
        peers.contains(peer),
        peer.con_type == PeerType::Static,
    ensures
        peers.filter(survivor(now, timeout)).contains(peer),
{
    lemma_sweep_membership(peers, peer, now, timeout);
}

/// A sweep keeps a dynamic neighbour exactly when it was last heard from no
/// longer than `timeout` ago; one that has been silent longer is gone
/// afterwards, and with it the only record of its endpoint identifier.
pub proof fn lemma_dynamic_peers_expire(
    peers: Seq<DtnPeer>,
    peer: DtnPeer,
    now: u64,
    timeout: u64,
)
    requires
        peers.contains(peer),
        peer.con_type == PeerType::Dynamic,
    ensures
        now - peer.last_contact <= timeout ==> peers.filter(survivor(now, timeout)).contains(
            peer,
        ),
        now - peer.last_contact > timeout ==> !peers.filter(survivor(now, timeout)).contains(
            peer,
        ),
        now - peer.last_contact > timeout && peer_eids(peers).no_duplicates() ==> !peer_eids(
            peers.filter(survivor(now, timeout)),
        ).contains(peer.eid),
{
    lemma_sweep_membership(peers, peer, now, timeout);
    let kept = peers.filter(survivor(now, timeout));
    if now - peer.last_contact > timeout && peer_eids(peers).no_duplicates() && peer_eids(
        kept,
    ).contains(peer.eid) {
        let k = choose|k: int| 0 <= k < kept.len() && peer_eids(kept)[k] == peer.eid;
        lemma_sweep_membership(peers, kept[k], now, timeout);
        let i = choose|i: int| 0 <= i < peers.len() && peers[i] == kept[k];
        let j = choose|j: int| 0 <= j < peers.len() && peers[j] == peer;
        assert(peer_eids(peers)[i] == peer_eids(peers)[j]);
    }
}

/// A second sweep at the same time drops nothing more.
pub proof fn lemma_sweep_is_idempotent(peers: Seq<DtnPeer>, now: u64, timeout: u64)
    ensures
        peers.filter(survivor(now, timeout)).filter(survivor(now, timeout)) == peers.filter(
            survivor(now, timeout),
        ),
        peers.filter(survivor(now, timeout)).filter(expired(now, timeout)) == Seq::<
            DtnPeer,
        >::empty(),
    decreases peers.len(),
{
    let keep = survivor(now, timeout);
    let gone = expired(now, timeout);
    reveal(Seq::filter);
    if peers.len() > 0 {
        let front = peers.drop_last();
        lemma_sweep_is_idempotent(front, now, timeout);
        if keep(peers.last()) {
            front.filter(keep).lemma_filter_push(peers.last(), keep);
            front.filter(keep).lemma_filter_push(peers.last(), gone);
        }
    }
}

/// Leaving records out of a table does not give any endpoint identifier a
/// second record.
proof fn lemma_filter_keeps_distinct(peers: Seq<DtnPeer>, keep: spec_fn(DtnPeer) -> bool)
    requires
        peer_eids(peers).no_duplicates(),
    ensures
        peer_eids(peers.filter(keep)).no_duplicates(),
    decreases peers.len(),
{
    reveal(Seq::filter);
    if peers.len() > 0 {
        let front = peers.drop_last();
        let kept = front.filter(keep);
        assert forall|i: int, j: int| 0 <= i < j < front.len() implies peer_eids(front)[i]
            != peer_eids(front)[j] by {
            assert(peer_eids(peers)[i] != peer_eids(peers)[j]);
        }
        lemma_filter_keeps_distinct(front, keep);
        if keep(peers.last()) {
            assert forall|i: int| 0 <= i < kept.len() implies kept[i].eid != peers.last().eid by {
                assert(kept.contains(kept[i]));
                front.lemma_filter_contains_rev(keep, kept[i]);
                let k = choose|k: int| 0 <= k < front.len() && front[k] == kept[i];
                assert(peer_eids(peers)[k] != peer_eids(peers)[peers.len() - 1]);
            }
            assert(peer_eids(kept.push(peers.last())) =~= peer_eids(kept).push(
                peers.last().eid,
            ));
        }
    }
}

/// Drops every neighbour that is neither static nor recently heard from, and
/// returns the dropped records in the order in which the table held them.
/// The others stay, in their order.
pub fn process_peers(table: &mut PeerTable, now: u64, timeout: u64) -> (removed: Vec<DtnPeer>)
    ensures
        final(table)@ == old(table)@.filter(survivor(now, timeout)),
        removed@ == old(table)@.filter(expired(now, timeout)),
        forall|peer: DtnPeer| #[trigger]
            final(table)@.contains(peer) <==> old(table)@.contains(peer) && (peer.con_type
                == PeerType::Static || now - peer.last_contact <= timeout),
        old(table).wf() ==> final(table).wf(),
{
    let mut all: Vec<DtnPeer> = Vec::new();
    std::mem::swap(&mut table.peers, &mut all);
    let mut removed: Vec<DtnPeer> = Vec::new();
    for peer in it: all.into_iter()
        invariant
            it.seq() == old(table)@,
            table@ == it.seq().take(it.index()).filter(survivor(now, timeout)),
            removed@ == it.seq().take(it.index()).filter(expired(now, timeout)),
    {
        proof {
            let seen = it.seq().take(it.index());
            assert(it.seq().take(it.index() + 1) =~= seen.push(peer));
            seen.lemma_filter_push(peer, survivor(now, timeout));
            seen.lemma_filter_push(peer, expired(now, timeout));
        }
        if peer.con_type == PeerType::Static || peer.still_valid(now, timeout) {
            table.peers.push(peer);
        } else {
            removed.push(peer);
        }
    }
    proof {
        assert(old(table)@.take(old(table)@.len() as int) =~= old(table)@);
        assert forall|peer: DtnPeer| #[trigger]
            table@.contains(peer) <==> old(table)@.contains(peer) && (peer.con_type
                == PeerType::Static || now - peer.last_contact <= timeout) by {
            lemma_sweep_membership(old(table)@, peer, now, timeout);
        }
        if old(table).wf() {
            lemma_filter_keeps_distinct(old(table)@, survivor(now, timeout));
        }
    }
    removed
}

} // verus!
