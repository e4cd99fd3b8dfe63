use peer_sync::registry::NodeManager;
use peer_sync::types::{Network, Peer};

fn peer(addr: u64, current_block: u64) -> Peer {
    Peer { addr, current_block }
}

#[test]
fn test_add_peer_excludes_self() {
    let mut node = NodeManager::new(Some(7), false);
    node.add_peer(peer(7, 100));
    assert_eq!(node.get_peers(), vec![]);
    node.add_peer(peer(8, 5));
    node.add_peer(peer(7, 0));
    assert_eq!(node.get_peers(), vec![peer(8, 5)]);
}

#[test]
fn test_add_peer_dedup_by_address() {
    let mut node = NodeManager::new(None, true);
    node.add_peer(peer(1, 10));
    node.add_peer(peer(2, 20));
    // A plain add never overwrites: the stale record stays.
    node.add_peer(peer(1, 999));
    assert_eq!(node.get_peers(), vec![peer(1, 10), peer(2, 20)]);
}

#[test]
fn test_remove_peer() {
    let mut node = NodeManager::new(None, true);
    node.add_peer(peer(1, 10));
    node.add_peer(peer(2, 20));
    node.add_peer(peer(3, 30));
    node.remove_peer(peer(2, 0));
    assert_eq!(node.get_peers(), vec![peer(1, 10), peer(3, 30)]);
    // Removing an absent address is a no-op.
    node.remove_peer(peer(9, 0));
    assert_eq!(node.get_peers(), vec![peer(1, 10), peer(3, 30)]);
}

#[test]
fn test_update_peer_replaces_record() {
    let mut node = NodeManager::new(None, true);
    node.add_peer(peer(1, 10));
    node.add_peer(peer(2, 20));
    node.update_peer(peer(1, 77));
    // The fresh record replaces the old one (and moves to the end).
    assert_eq!(node.get_peers(), vec![peer(2, 20), peer(1, 77)]);
}

#[test]
fn test_get_peers_is_a_snapshot() {
    let mut node = NodeManager::new(None, true);
    node.add_peer(peer(1, 10));
    let snapshot = node.get_peers();
    node.add_peer(peer(2, 20));
    assert_eq!(snapshot, vec![peer(1, 10)]);
    assert_eq!(node.get_peers(), vec![peer(1, 10), peer(2, 20)]);
}

#[test]
fn test_provider_network_set_and_get() {
    let mut node = NodeManager::new(None, true);
    assert_eq!(node.get_provider_network(), None);
    node.set_provider_network(Network { provider_handle: 3 });
    assert_eq!(node.get_provider_network(), Some(Network { provider_handle: 3 }));
}
