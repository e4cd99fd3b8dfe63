//! One handshake/election round and the gossip merge.
//!
//! A round walks a snapshot of the registry, and for every snapshot peer
//! takes the outcome of contacting it as a plain value: the handshake
//! result and, when that succeeded, the result of fetching the peer's own
//! peer list. The round mutates the registry and elects the best peer
//! exactly as the outcomes dictate; the network calls themselves are the
//! driver's business.

use vstd::prelude::*;

use crate::registry::{
    peers_after_add, peers_after_remove, peers_after_update, NodeManager,
};
use crate::types::{FailureKind, Peer};

verus! {

/// The outcome of contacting one snapshot peer during a round.
pub enum PeerContact {
    /// The handshake failed; the peer is dropped from the registry.
    Failed(FailureKind),
    /// The handshake succeeded with the peer reporting `current_block`;
    /// `gossip` is the outcome of then asking that peer for its own peers.
    Succeeded { current_block: u64, gossip: Result<Vec<Peer>, FailureKind> },
}

/// A round can fail only through configuration: a node (non-client) must
/// know its own external address before handshaking.
#[derive(Clone, Copy, PartialEq, Eq, Structural, Debug)]
pub enum SyncError {
    MissingExternalAddr,
}

/// The registry's peer list after adding each entry of `list` in order,
/// under the usual add rule (self-exclusion, first record wins).
pub open spec fn peers_after_add_all(
    peers: Seq<Peer>,
    ext: Option<u64>,
    list: Seq<Peer>,
) -> Seq<Peer>
    decreases list.len(),
{
    if list.len() == 0 {
        peers
    } else {
        peers_after_add_all(peers_after_add(peers, ext, list[0]), ext, list.drop_first())
    }
}

/// The registry's peer list after one peer contact: a failed handshake
/// drops the peer; a successful one replaces its record with the reported
/// height and then either merges the gossiped list or, when gossip failed,
/// drops the freshly updated source peer again.
pub open spec fn peers_after_contact(
    peers: Seq<Peer>,
    ext: Option<u64>,
    target: Peer,
    c: PeerContact,
) -> Seq<Peer> {
    match c {
        PeerContact::Failed(_) => peers_after_remove(peers, target.addr),
        PeerContact::Succeeded { current_block, gossip } => {
            let updated = peers_after_update(
                peers,
                ext,
                Peer { addr: target.addr, current_block },
            );
            match gossip {
                Ok(list) => peers_after_add_all(updated, ext, list@),
                Err(_) => peers_after_remove(updated, target.addr),
            }
        },
    }
}

/// The registry's peer list after a whole round: the contacts applied in
/// snapshot order.
pub open spec fn peers_after_round(
    peers: Seq<Peer>,
    ext: Option<u64>,
    snapshot: Seq<Peer>,
    contacts: Seq<PeerContact>,
) -> Seq<Peer>
    decreases snapshot.len(),
{
    if snapshot.len() == 0 || contacts.len() == 0 {
        peers
    } else {
        peers_after_round(
            peers_after_contact(peers, ext, snapshot[0], contacts[0]),
            ext,
            snapshot.drop_first(),
            contacts.drop_first(),
        )
    }
}

/// The provisional winner after the remaining contacts, starting from the
/// given provisional choice and best height seen so far. A success whose
/// height reaches the best seen (`>=`) takes the election: on ties the peer
/// observed later wins.
pub open spec fn winner_from(
    provisional: Option<Peer>,
    best: u64,
    snapshot: Seq<Peer>,
    contacts: Seq<PeerContact>,
) -> Option<Peer>
    decreases snapshot.len(),
{
    if snapshot.len() == 0 || contacts.len() == 0 {
        provisional
    } else {
        match contacts[0] {
            PeerContact::Failed(_) => winner_from(
                provisional,
                best,
                snapshot.drop_first(),
                contacts.drop_first(),
            ),
            PeerContact::Succeeded { current_block, .. } => if current_block >= best {
                winner_from(
                    Some(Peer { addr: snapshot[0].addr, current_block }),
                    current_block,
                    snapshot.drop_first(),
                    contacts.drop_first(),
                )
            } else {
                winner_from(provisional, best, snapshot.drop_first(), contacts.drop_first())
            },
        }
    }
}

/// The peer a round elects, if any: the last success whose reported height
/// reached the maximum of the successes before it.
pub open spec fn round_winner(snapshot: Seq<Peer>, contacts: Seq<PeerContact>) -> Option<Peer> {
    winner_from(None, 0, snapshot, contacts)
}

impl NodeManager {
    /// Merge a peer's gossiped peer list into the registry; on any failure
    /// drop the source peer instead, as evidence it is no longer reliable.
    ///
    /// Merging never overwrites the record of an already-known address.
    #[verifier::loop_isolation(false)]
    pub fn apply_gossip(&mut self, source: Peer, outcome: &Result<Vec<Peer>, FailureKind>)
        ensures
            final(self).peers@ == (match outcome {
                Ok(list) => peers_after_add_all(
                    old(self).peers@,
                    old(self).external_addr,
                    list@,
                ),
                Err(_) => peers_after_remove(old(self).peers@, source.addr),
            }),
            final(self).elected_peer == old(self).elected_peer,
            final(self).external_addr == old(self).external_addr,
            final(self).is_client == old(self).is_client,
            final(self).network == old(self).network,
            old(self).wf() ==> final(self).wf(),
    {
        match outcome {
            Ok(list) => {
                let ghost ext = self.external_addr;
                let ghost start = self.peers@;
                proof {
                    assert(list@.skip(0) =~= list@);
                }
                let mut j: usize = 0;
                while j < list.len()
                    invariant
                        j <= list@.len(),
                        self.external_addr == ext,
                        self.elected_peer == old(self).elected_peer,
                        self.is_client == old(self).is_client,
                        self.network == old(self).network,
                        peers_after_add_all(start, ext, list@) == peers_after_add_all(
                            self.peers@,
                            ext,
                            list@.skip(j as int),
                        ),
                        old(self).wf() ==> self.wf(),
                    decreases list@.len() - j,
                {
                    let p = list[j];
                    proof {
                        assert(list@.skip(j as int)[0] == list@[j as int]);
                        assert(list@.skip(j as int).drop_first() =~= list@.skip(j as int + 1));
                    }
                    self.add_peer(p);
                    j += 1;
                }
                proof {
                    assert(list@.skip(list@.len() as int) =~= Seq::<Peer>::empty());
                }
            },
            Err(_) => {
                self.remove_peer(source);
            },
        }
    }

    /// One synchronization round over the snapshot taken at entry.
    ///
    /// `contacts[i]` is the outcome of contacting the i-th snapshot peer,
    /// in order. Each failure drops that peer; each success replaces its
    /// record and merges its gossip. If any contact succeeded, the round's
    /// winner becomes the elected peer; a round with no success leaves the
    /// previous election standing. The only error is configuration: a
    /// server-role node with peers to contact but no external address of
    /// its own; nothing is changed then.
    #[verifier::loop_isolation(false)]
    pub fn sync_with_peers(&mut self, contacts: &Vec<PeerContact>) -> (r: Result<(), SyncError>)
        requires
            contacts@.len() == old(self).peers@.len(),
        ensures
            r is Err <==> (!old(self).is_client && old(self).external_addr is None && old(
                self,
            ).peers@.len() > 0),
            r is Err ==> *final(self) == *old(self),
            r is Ok ==> final(self).peers@ == peers_after_round(
                old(self).peers@,
                old(self).external_addr,
                old(self).peers@,
                contacts@,
            ),
            r is Ok ==> final(self).elected_peer == (match round_winner(
                old(self).peers@,
                contacts@,
            ) {
                Some(w) => Some(w),
                None => old(self).elected_peer,
            }),
            final(self).external_addr == old(self).external_addr,
            final(self).is_client == old(self).is_client,
            final(self).network == old(self).network,
            old(self).wf() ==> final(self).wf(),
    {
        if !self.is_client && self.external_addr.is_none() && self.peers.len() > 0 {
            return Err(SyncError::MissingExternalAddr);
        }
        let snapshot = self.get_peers();
        let ghost ext = self.external_addr;
        let ghost start = self.peers@;
        proof {
            assert(snapshot@.skip(0) =~= snapshot@);
            assert(contacts@.skip(0) =~= contacts@);
        }
        let mut provisional: Option<Peer> = None;
        let mut best: u64 = 0;
        let mut i: usize = 0;
        while i < snapshot.len()
            invariant
                i <= snapshot@.len(),
                self.external_addr == ext,
                self.elected_peer == old(self).elected_peer,
                self.is_client == old(self).is_client,
                self.network == old(self).network,
                peers_after_round(start, ext, snapshot@, contacts@) == peers_after_round(
                    self.peers@,
                    ext,
                    snapshot@.skip(i as int),
                    contacts@.skip(i as int),
                ),
                round_winner(snapshot@, contacts@) == winner_from(
                    provisional,
                    best,
                    snapshot@.skip(i as int),
                    contacts@.skip(i as int),
                ),
                old(self).wf() ==> self.wf(),
            decreases snapshot@.len() - i,
        {
            let peer = snapshot[i];
            let ghost prev = self.peers@;
            proof {
                assert(snapshot@.skip(i as int)[0] == snapshot@[i as int]);
                assert(contacts@.skip(i as int)[0] == contacts@[i as int]);
                assert(snapshot@.skip(i as int).drop_first() =~= snapshot@.skip(i as int + 1));
                assert(contacts@.skip(i as int).drop_first() =~= contacts@.skip(i as int + 1));
            }
            match &contacts[i] {
                PeerContact::Failed(_) => {
                    self.remove_peer(peer);
                },
                PeerContact::Succeeded { current_block, gossip } => {
                    let updated = Peer { addr: peer.addr, current_block: *current_block };
                    self.update_peer(updated);
                    if *current_block >= best {
                        provisional = Some(updated);
                        best = *current_block;
                    }
                    self.apply_gossip(updated, gossip);
                },
            }
            proof {
                assert(self.peers@ == peers_after_contact(prev, ext, peer, contacts@[i as int]));
            }
            i += 1;
        }
        proof {
            assert(snapshot@.skip(snapshot@.len() as int) =~= Seq::<Peer>::empty());
            assert(contacts@.skip(contacts@.len() as int) =~= Seq::<PeerContact>::empty());
        }
        if let Some(w) = provisional {
            self.elected_peer = Some(w);
        }
        Ok(())
    }
}

} // verus!
