use peer_sync::direct_fetch::{FetchState, QueryOutcome};
use peer_sync::peer_fetch::{page_is_terminal, page_request_start, PageOutcome};
use peer_sync::registry::NodeManager;
use peer_sync::types::{Network, Peer, SentEvent, SpendEvent};

fn spend(index: u64) -> SpendEvent {
    SpendEvent { index, nullifier: index * 11 }
}

fn sent(index: u64) -> SentEvent {
    SentEvent { index, commitment: index * 13 }
}

fn page(spends: Vec<SpendEvent>, sents: Vec<SentEvent>) -> PageOutcome {
    PageOutcome::Page { spend_events: spends, sent_events: sents }
}

fn elected_node() -> NodeManager {
    let mut node = NodeManager::new(None, true);
    node.elected_peer = Some(Peer { addr: 1, current_block: 42 });
    node
}

#[test]
fn test_paginated_fetch_two_pages_then_empty() {
    let node = elected_node();
    let pages = vec![
        page(vec![spend(0), spend(1)], vec![sent(0)]),
        page(vec![spend(2)], vec![sent(1), sent(2)]),
        page(vec![], vec![]),
    ];
    let (spends, sents, height) = node.get_events_from_elected_peer(0, 0, &pages);
    assert_eq!(spends, vec![spend(0), spend(1), spend(2)]);
    assert_eq!(sents, vec![sent(0), sent(1), sent(2)]);
    assert_eq!(height, 42);
}

#[test]
fn test_paginated_fetch_stops_at_empty_page() {
    let node = elected_node();
    // A page standing after the empty pair is never requested: it cannot
    // change the result.
    let pages = vec![
        page(vec![spend(0)], vec![]),
        page(vec![], vec![]),
        page(vec![spend(9)], vec![sent(9)]),
    ];
    let (spends, sents, _) = node.get_events_from_elected_peer(0, 0, &pages);
    assert_eq!(spends, vec![spend(0)]);
    assert_eq!(sents, vec![]);
}

#[test]
fn test_paginated_fetch_failure_keeps_partial_result() {
    let node = elected_node();
    let pages = vec![
        page(vec![spend(0)], vec![sent(0)]),
        PageOutcome::Failed(peer_sync::types::FailureKind::Status),
        page(vec![spend(9)], vec![sent(9)]),
    ];
    let (spends, sents, height) = node.get_events_from_elected_peer(0, 0, &pages);
    assert_eq!(spends, vec![spend(0)]);
    assert_eq!(sents, vec![sent(0)]);
    assert_eq!(height, 42);
}

#[test]
fn test_paginated_fetch_without_elected_peer_is_empty() {
    let node = NodeManager::new(None, true);
    let pages = vec![page(vec![spend(0)], vec![sent(0)])];
    let (spends, sents, height) = node.get_events_from_elected_peer(0, 0, &pages);
    assert_eq!(spends, vec![]);
    assert_eq!(sents, vec![]);
    assert_eq!(height, 0);
}

#[test]
fn test_page_terminal_rule() {
    assert!(page_is_terminal(&page(vec![], vec![])));
    assert!(page_is_terminal(&PageOutcome::Failed(
        peer_sync::types::FailureKind::Connection
    )));
    assert!(!page_is_terminal(&page(vec![spend(0)], vec![])));
    assert!(!page_is_terminal(&page(vec![], vec![sent(0)])));
}

#[test]
fn test_page_request_start_advances_by_page_length() {
    assert_eq!(page_request_start(5, 0), 5);
    assert_eq!(page_request_start(5, 1), 261);
    assert_eq!(page_request_start(5, 2), 517);
}

#[test]
fn test_adaptive_controller_halves_after_timeout_and_recovers() {
    let mut st = FetchState::new(0, 2304);
    assert_eq!(st.next_range(), (0, 1024));
    st.on_success();
    assert_eq!(st.next_range(), (1024, 2048));
    // Timeout: the step halves and the same cursor is retried.
    st.on_failure();
    assert_eq!(st.next_range(), (1024, 1536));
    // The reduced range succeeds; the step doubles back to the ceiling.
    st.on_success();
    assert_eq!(st.next_range(), (1536, 2560));
    st.on_success();
    assert!(st.done());
}

#[test]
fn test_adaptive_fetch_collects_in_order_across_failures() {
    let mut node = NodeManager::new(None, true);
    node.set_provider_network(Network { provider_handle: 1 });
    let outcomes = vec![
        QueryOutcome::Events(vec![spend(0), spend(1)]),
        QueryOutcome::Failed,
        QueryOutcome::Events(vec![spend(2)]),
        QueryOutcome::Events(vec![spend(3)]),
    ];
    let events = node.get_spend_events(0, 2304, &outcomes);
    assert_eq!(events, vec![spend(0), spend(1), spend(2), spend(3)]);
}

#[test]
fn test_adaptive_fetch_empty_range_issues_no_query() {
    let mut node = NodeManager::new(None, true);
    node.set_provider_network(Network { provider_handle: 1 });
    let outcomes = vec![QueryOutcome::Events(vec![spend(0)])];
    // from >= to: done before the first query, whatever outcomes stand by.
    let events = node.get_spend_events(7, 7, &outcomes);
    assert_eq!(events, vec![]);
}

#[test]
fn test_direct_fetch_without_provider_is_empty() {
    let node = NodeManager::new(None, true);
    let outcomes = vec![QueryOutcome::Events(vec![spend(0)])];
    assert_eq!(node.get_spend_events(0, 2048, &outcomes), vec![]);
    let sent_outcomes = vec![QueryOutcome::Events(vec![sent(0)])];
    assert_eq!(node.get_sent_events(0, 2048, &sent_outcomes), vec![]);
}

#[test]
fn test_get_sent_events_collects_like_spends() {
    let mut node = NodeManager::new(None, true);
    node.set_provider_network(Network { provider_handle: 1 });
    let outcomes = vec![
        QueryOutcome::Events(vec![sent(0)]),
        QueryOutcome::Failed,
        QueryOutcome::Events(vec![sent(1), sent(2)]),
    ];
    let events = node.get_sent_events(0, 2000, &outcomes);
    assert_eq!(events, vec![sent(0), sent(1), sent(2)]);
}

#[test]
fn test_peer_and_direct_fetch_agree_on_same_source() {
    // The same backing events, served once as peer pages and once as
    // provider chunks, come out identical.
    let source = vec![spend(0), spend(1), spend(2), spend(3)];
    let node_peer = elected_node();
    let pages = vec![
        page(vec![spend(0), spend(1)], vec![sent(0)]),
        page(vec![spend(2), spend(3)], vec![sent(1)]),
        page(vec![], vec![]),
    ];
    let (from_peer, _, _) = node_peer.get_events_from_elected_peer(0, 0, &pages);
    let mut node_direct = NodeManager::new(None, true);
    node_direct.set_provider_network(Network { provider_handle: 1 });
    let outcomes = vec![
        QueryOutcome::Events(vec![spend(0), spend(1), spend(2)]),
        QueryOutcome::Events(vec![spend(3)]),
    ];
    let from_provider = node_direct.get_spend_events(0, 2048, &outcomes);
    assert_eq!(from_peer, source);
    assert_eq!(from_provider, source);
}
