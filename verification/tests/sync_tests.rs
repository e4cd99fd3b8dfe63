use peer_sync::registry::NodeManager;
use peer_sync::sync::{PeerContact, SyncError};
use peer_sync::types::{FailureKind, Peer};

fn peer(addr: u64, current_block: u64) -> Peer {
    Peer { addr, current_block }
}

fn success(current_block: u64) -> PeerContact {
    PeerContact::Succeeded { current_block, gossip: Ok(vec![]) }
}

#[test]
fn test_election_tie_broken_by_last_observed() {
    let mut node = NodeManager::new(None, true);
    node.add_peer(peer(1, 0));
    node.add_peer(peer(2, 0));
    node.add_peer(peer(3, 0));
    // Heights 10, 20, 20 in contact order: the later of the two equal
    // heights wins the election.
    let contacts = vec![success(10), success(20), success(20)];
    let r = node.sync_with_peers(&contacts);
    assert_eq!(r, Ok(()));
    assert_eq!(node.elected_peer, Some(peer(3, 20)));
    assert_eq!(node.get_peers(), vec![peer(1, 10), peer(2, 20), peer(3, 20)]);
}

#[test]
fn test_no_successful_handshake_keeps_previous_election() {
    let mut node = NodeManager::new(None, true);
    node.add_peer(peer(1, 10));
    node.elected_peer = Some(peer(9, 50));
    let contacts = vec![PeerContact::Failed(FailureKind::Connection)];
    let r = node.sync_with_peers(&contacts);
    assert_eq!(r, Ok(()));
    assert_eq!(node.elected_peer, Some(peer(9, 50)));
    assert_eq!(node.get_peers(), vec![]);
}

#[test]
fn test_failed_handshake_removes_exactly_that_peer() {
    let mut node = NodeManager::new(None, true);
    node.add_peer(peer(1, 10));
    node.add_peer(peer(2, 20));
    node.add_peer(peer(3, 30));
    node.elected_peer = Some(peer(3, 30));
    let contacts = vec![
        success(10),
        PeerContact::Failed(FailureKind::Connection),
        success(30),
    ];
    let r = node.sync_with_peers(&contacts);
    assert_eq!(r, Ok(()));
    // Exactly the unreachable peer is gone; the records of the others are
    // as before, and the election still names the same peer.
    assert_eq!(node.get_peers(), vec![peer(1, 10), peer(3, 30)]);
    assert_eq!(node.elected_peer, Some(peer(3, 30)));
}

#[test]
fn test_sync_requires_own_address_for_server_role() {
    let mut node = NodeManager::new(None, false);
    node.add_peer(peer(1, 10));
    let contacts = vec![success(10)];
    let r = node.sync_with_peers(&contacts);
    assert_eq!(r, Err(SyncError::MissingExternalAddr));
    // Nothing changed.
    assert_eq!(node.get_peers(), vec![peer(1, 10)]);
    assert_eq!(node.elected_peer, None);
    // With no peer to contact there is nothing to advertise, so no error.
    let mut idle = NodeManager::new(None, false);
    assert_eq!(idle.sync_with_peers(&vec![]), Ok(()));
}

#[test]
fn test_gossip_merge_keeps_known_peer_height() {
    let mut node = NodeManager::new(None, true);
    node.add_peer(peer(1, 100));
    let list = vec![peer(1, 999), peer(4, 5)];
    node.apply_gossip(peer(1, 100), &Ok(list));
    // The known peer's record is untouched; only the new address joins.
    assert_eq!(node.get_peers(), vec![peer(1, 100), peer(4, 5)]);
}

#[test]
fn test_gossip_failure_removes_source_peer() {
    let mut node = NodeManager::new(None, true);
    node.add_peer(peer(1, 100));
    node.add_peer(peer(2, 200));
    node.apply_gossip(peer(1, 100), &Err(FailureKind::Status));
    assert_eq!(node.get_peers(), vec![peer(2, 200)]);
}

#[test]
fn test_round_never_admits_own_address() {
    let mut node = NodeManager::new(Some(9), false);
    node.add_peer(peer(1, 0));
    // The contacted peer gossips this node's own address back.
    let contacts = vec![PeerContact::Succeeded {
        current_block: 10,
        gossip: Ok(vec![peer(9, 1), peer(2, 2)]),
    }];
    let r = node.sync_with_peers(&contacts);
    assert_eq!(r, Ok(()));
    assert_eq!(node.get_peers(), vec![peer(1, 10), peer(2, 2)]);
}

#[test]
fn test_gossip_failure_after_success_drops_updated_peer() {
    let mut node = NodeManager::new(None, true);
    node.add_peer(peer(1, 0));
    let contacts = vec![PeerContact::Succeeded {
        current_block: 10,
        gossip: Err(FailureKind::Parse),
    }];
    let r = node.sync_with_peers(&contacts);
    assert_eq!(r, Ok(()));
    // The handshake succeeded, so the peer was elected, but its failing
    // gossip endpoint dropped it from the registry again.
    assert_eq!(node.get_peers(), vec![]);
    assert_eq!(node.elected_peer, Some(peer(1, 10)));
}
