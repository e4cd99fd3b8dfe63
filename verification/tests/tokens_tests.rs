use peer_sync::tokens::{NetworkManager, TokenInfo};

#[test]
fn test_network_manager_starts_with_goerli_weth() {
    let manager = NetworkManager::new();
    assert_eq!(manager.networks.len(), 1);
    let (name, tokens) = &manager.networks[0];
    assert_eq!(name, "Goerli");
    assert_eq!(tokens.len(), 1);
    assert_eq!(tokens[0].token_address, "0xdD69DB25F6D620A7baD3023c5d32761D353D3De9");
    assert_eq!(tokens[0].symbol, "WETH");
}

#[test]
fn test_add_network_appends_new_name() {
    let mut manager = NetworkManager::new();
    manager.add_network(
        "Sepolia".to_string(),
        vec![TokenInfo { token_address: "0x01".to_string(), symbol: "TST".to_string() }],
    );
    assert_eq!(manager.networks.len(), 2);
    assert_eq!(manager.networks[1].0, "Sepolia");
    assert_eq!(manager.networks[1].1[0].symbol, "TST");
}

#[test]
fn test_add_network_replaces_known_name_in_place() {
    let mut manager = NetworkManager::new();
    manager.add_network(
        "Goerli".to_string(),
        vec![TokenInfo { token_address: "0x02".to_string(), symbol: "NEW".to_string() }],
    );
    assert_eq!(manager.networks.len(), 1);
    assert_eq!(manager.networks[0].0, "Goerli");
    assert_eq!(manager.networks[0].1.len(), 1);
    assert_eq!(manager.networks[0].1[0].symbol, "NEW");
}
