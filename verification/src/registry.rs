//! The peer registry: the set of known peers, the elected synchronization
//! source, and this node's own identity and provider configuration.

use vstd::prelude::*;

use crate::types::{Network, Peer};

verus! {

/// Does some entry of `peers` carry the address `a`?
pub open spec fn has_addr(peers: Seq<Peer>, a: u64) -> bool {
    exists|i: int| 0 <= i < peers.len() && peers[i].addr == a
}

/// The registry's add rule: a peer equal to the node's own external address
/// is ignored, a peer whose address is already present is ignored (the
/// stored record is kept, stale height and all), and any other peer is
/// appended.
pub open spec fn peers_after_add(peers: Seq<Peer>, ext: Option<u64>, p: Peer) -> Seq<Peer> {
    if (ext is Some && p.addr == ext.unwrap()) || has_addr(peers, p.addr) {
        peers
    } else {
        peers.push(p)
    }
}

/// The registry's remove rule: every entry carrying the address goes, order
/// of the rest is kept.
pub open spec fn peers_after_remove(peers: Seq<Peer>, a: u64) -> Seq<Peer>
    decreases peers.len(),
{
    if peers.len() == 0 {
        Seq::empty()
    } else {
        let rest = peers_after_remove(peers.drop_last(), a);
        if peers.last().addr == a {
            rest
        } else {
            rest.push(peers.last())
        }
    }
}

/// The registry's update rule: replace whatever record the address had with
/// the given one (remove, then add).
pub open spec fn peers_after_update(peers: Seq<Peer>, ext: Option<u64>, p: Peer) -> Seq<Peer> {
    peers_after_add(peers_after_remove(peers, p.addr), ext, p)
}

/// No two entries share an address.
pub open spec fn peers_unique(peers: Seq<Peer>) -> bool {
    forall|i: int, j: int|
        0 <= i < j < peers.len() ==> peers[i].addr != peers[j].addr
}

/// No entry carries the node's own external address.
pub open spec fn peers_exclude(peers: Seq<Peer>, ext: Option<u64>) -> bool {
    ext is Some ==> forall|i: int| 0 <= i < peers.len() ==> peers[i].addr != ext.unwrap()
}

/// The node instance: registry state plus configuration.
pub struct NodeManager {
    /// Known peers, unique by address, never containing `external_addr`.
    pub peers: Vec<Peer>,
    /// The synchronization source elected by the most recent round, if any.
    /// It may have been removed from `peers` since without being cleared.
    pub elected_peer: Option<Peer>,
    /// This node's own publicly reachable address, when it acts as a server.
    pub external_addr: Option<u64>,
    /// A client never advertises an address to the peers it contacts; a
    /// server must have `external_addr` set when handshaking.
    pub is_client: bool,
    /// The configured provider binding, if any.
    pub network: Option<Network>,
}

impl NodeManager {
    /// The registry invariant: addresses unique, own address excluded.
    pub open spec fn wf(self) -> bool {
        peers_unique(self.peers@) && peers_exclude(self.peers@, self.external_addr)
    }

    /// A node that starts with no peers, no election and no configuration.
    pub fn new(external_addr: Option<u64>, is_client: bool) -> (r: NodeManager)
        ensures
            r.peers@ == Seq::<Peer>::empty(),
            r.elected_peer is None,
            r.external_addr == external_addr,
            r.is_client == is_client,
            r.network is None,
            r.wf(),
    {
        NodeManager {
            peers: Vec::new(),
            elected_peer: None,
            external_addr,
            is_client,
            network: None,
        }
    }

    /// Add a peer, ignoring it if it is this node itself or if its address
    /// is already known. Never fails.
    pub fn add_peer(&mut self, peer: Peer)
        ensures
            final(self).peers@ == peers_after_add(old(self).peers@, old(self).external_addr, peer),
            final(self).elected_peer == old(self).elected_peer,
            final(self).external_addr == old(self).external_addr,
            final(self).is_client == old(self).is_client,
            final(self).network == old(self).network,
            old(self).wf() ==> final(self).wf(),
    {
        proof {
            lemma_add_preserves_invariants(self.peers@, self.external_addr, peer);
        }
        if let Some(ext) = self.external_addr {
            if peer.addr == ext {
                return ;
            }
        }
        let mut i: usize = 0;
        while i < self.peers.len()
            invariant
                i <= self.peers@.len(),
                forall|j: int| 0 <= j < i ==> self.peers@[j].addr != peer.addr,
            decreases self.peers@.len() - i,
        {
            if self.peers[i].addr == peer.addr {
                return ;
            }
            i += 1;
        }
        assert(!has_addr(self.peers@, peer.addr));
        self.peers.push(peer);
    }

    /// A snapshot of the current peers; later mutation does not show in it.
    pub fn get_peers(&self) -> (r: Vec<Peer>)
        ensures
            r@ == self.peers@,
    {
        let mut r: Vec<Peer> = Vec::new();
        let mut i: usize = 0;
        while i < self.peers.len()
            invariant
                i <= self.peers@.len(),
                r@ == self.peers@.take(i as int),
            decreases self.peers@.len() - i,
        {
            r.push(self.peers[i]);
            assert(r@ =~= self.peers@.take(i + 1 as int));
            i += 1;
        }
        assert(r@ =~= self.peers@);
        r
    }

    /// Remove every entry carrying the peer's address; a no-op if absent.
    pub fn remove_peer(&mut self, peer: Peer)
        ensures
            final(self).peers@ == peers_after_remove(old(self).peers@, peer.addr),
            final(self).elected_peer == old(self).elected_peer,
            final(self).external_addr == old(self).external_addr,
            final(self).is_client == old(self).is_client,
            final(self).network == old(self).network,
            old(self).wf() ==> final(self).wf(),
    {
        proof {
            lemma_remove_preserves_invariants(self.peers@, self.external_addr, peer.addr);
        }
        let ghost all = self.peers@;
        let mut kept: Vec<Peer> = Vec::new();
        let mut i: usize = 0;
        while i < self.peers.len()
            invariant
                i <= self.peers@.len(),
                self.peers@ == all,
                kept@ == peers_after_remove(all.take(i as int), peer.addr),
            decreases self.peers@.len() - i,
        {
            let p = self.peers[i];
            assert(all.take(i + 1 as int).drop_last() =~= all.take(i as int));
            assert(all.take(i + 1 as int).last() == all[i as int]);
            if p.addr != peer.addr {
                kept.push(p);
            }
            i += 1;
        }
        assert(all.take(all.len() as int) =~= all);
        self.peers = kept;
    }

    /// Replace the stored record for the peer's address with the given one.
    pub fn update_peer(&mut self, peer: Peer)
        ensures
            final(self).peers@ == peers_after_update(old(self).peers@, old(self).external_addr, peer),
            final(self).elected_peer == old(self).elected_peer,
            final(self).external_addr == old(self).external_addr,
            final(self).is_client == old(self).is_client,
            final(self).network == old(self).network,
            old(self).wf() ==> final(self).wf(),
    {
        self.remove_peer(peer);
        self.add_peer(peer);
    }

    /// Configure the provider binding.
    pub fn set_provider_network(&mut self, provider_network: Network)
        ensures
            final(self).network == Some(provider_network),
            final(self).peers@ == old(self).peers@,
            final(self).elected_peer == old(self).elected_peer,
            final(self).external_addr == old(self).external_addr,
            final(self).is_client == old(self).is_client,
            old(self).wf() ==> final(self).wf(),
    {
        self.network = Some(provider_network);
    }

    /// The configured provider binding, if any.
    pub fn get_provider_network(&self) -> (r: Option<Network>)
        ensures
            r == self.network,
    {
        self.network
    }
}

/// The add rule keeps the registry invariant and never grows the list by a
/// peer that is already known or is the node itself.
pub proof fn lemma_add_preserves_invariants(peers: Seq<Peer>, ext: Option<u64>, p: Peer)
    ensures
        peers_unique(peers) ==> peers_unique(peers_after_add(peers, ext, p)),
        peers_exclude(peers, ext) ==> peers_exclude(peers_after_add(peers, ext, p), ext),
{
    let r = peers_after_add(peers, ext, p);
    if !((ext is Some && p.addr == ext.unwrap()) || has_addr(peers, p.addr)) {
        if peers_unique(peers) {
            assert forall|i: int, j: int| 0 <= i < j < r.len() implies r[i].addr != r[j].addr by {
                if j == peers.len() {
                    assert(!has_addr(peers, p.addr));
                }
            }
        }
    }
}

/// What the remove rule leaves: exactly the entries whose address differs
/// from the removed one, each an entry of the original list, uniqueness
/// kept.
pub proof fn lemma_remove_properties(peers: Seq<Peer>, a: u64)
    ensures
        forall|i: int|
            0 <= i < peers_after_remove(peers, a).len() ==> (#[trigger] peers_after_remove(
                peers,
                a,
            )[i]).addr != a,
        forall|i: int|
            0 <= i < peers_after_remove(peers, a).len() ==> peers.contains(
                #[trigger] peers_after_remove(peers, a)[i],
            ),
        forall|q: Peer|
            #[trigger] peers.contains(q) && q.addr != a ==> peers_after_remove(peers, a).contains(
                q,
            ),
        peers_unique(peers) ==> peers_unique(peers_after_remove(peers, a)),
    decreases peers.len(),
{
    let r = peers_after_remove(peers, a);
    if peers.len() > 0 {
        let dl = peers.drop_last();
        lemma_remove_properties(dl, a);
        let rest = peers_after_remove(dl, a);
        assert forall|i: int| 0 <= i < r.len() implies peers.contains(r[i]) by {
            if peers.last().addr == a || i < rest.len() {
                assert(r[i] == rest[i]);
                assert(dl.contains(rest[i]));
                let k = choose|k: int| 0 <= k < dl.len() && dl[k] == rest[i];
                assert(peers[k] == r[i]);
            } else {
                assert(r[i] == peers.last());
                assert(peers[peers.len() - 1] == peers.last());
            }
        }
        assert forall|q: Peer| peers.contains(q) && q.addr != a implies r.contains(q) by {
            let k = choose|k: int| 0 <= k < peers.len() && peers[k] == q;
            if k < peers.len() - 1 {
                assert(dl[k] == q);
                assert(dl.contains(q));
                assert(rest.contains(q));
                let j = choose|j: int| 0 <= j < rest.len() && rest[j] == q;
                assert(r[j] == q);
            } else {
                assert(q == peers.last());
                assert(r[r.len() - 1] == q);
            }
        }
        if peers_unique(peers) {
            assert(peers_unique(dl));
            assert forall|i: int, j: int| 0 <= i < j < r.len() implies r[i].addr != r[j].addr by {
                if peers.last().addr != a && j == rest.len() {
                    assert(r[i] == rest[i]);
                    assert(dl.contains(rest[i]));
                    let k = choose|k: int| 0 <= k < dl.len() && dl[k] == rest[i];
                    assert(peers[k] == rest[i]);
                    assert(peers[k].addr != peers[peers.len() - 1].addr);
                } else {
                    assert(r[i] == rest[i] && r[j] == rest[j]);
                }
            }
        }
    }
}

/// The remove rule keeps the registry invariant, and afterwards the removed
/// address is gone.
pub proof fn lemma_remove_preserves_invariants(peers: Seq<Peer>, ext: Option<u64>, a: u64)
    ensures
        peers_unique(peers) ==> peers_unique(peers_after_remove(peers, a)),
        peers_exclude(peers, ext) ==> peers_exclude(peers_after_remove(peers, a), ext),
        !has_addr(peers_after_remove(peers, a), a),
{
    lemma_remove_properties(peers, a);
    let r = peers_after_remove(peers, a);
    if peers_exclude(peers, ext) && ext is Some {
        assert forall|i: int| 0 <= i < r.len() implies r[i].addr != ext.unwrap() by {
            assert(peers.contains(r[i]));
            let k = choose|k: int| 0 <= k < peers.len() && peers[k] == r[i];
            assert(peers[k].addr != ext.unwrap());
        }
    }
    if has_addr(r, a) {
        let i = choose|i: int| 0 <= i < r.len() && r[i].addr == a;
        assert(r[i].addr != a);
    }
}

} // verus!
