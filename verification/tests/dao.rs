use rita::dao::{default_dao_address, default_node_list, SubnetDAOSettings};
use rita::models::Client;

#[test]
fn default_nodes() {
    assert_eq!(
        default_node_list(),
        vec![
            "https://eth.althea.org:443".to_string(),
            "https://mainnet.infura.io/v3/6b080f02d7004a8394444cdf232a7081".to_string(),
        ]
    );
}

#[test]
fn default_dao_addresses_are_none() {
    assert!(default_dao_address().is_empty());
}

#[test]
fn default_settings() {
    let settings = SubnetDAOSettings::default();
    assert!(settings.node_list.is_empty());
    assert!(settings.dao_addresses.is_empty());
    assert_eq!(settings.dao_fee, num256::Uint256::default());
    assert_eq!(settings.clone(), settings);
}

#[test]
fn default_client_record() {
    let client = Client::default();
    assert_eq!(client.mesh_ip, "");
    assert_eq!(client.wg_port, 0);
    assert!(!client.verified);
    assert!(!client.text_sent);
    assert_eq!(client.last_seen, 0);
}
