use ledger_storage::config::{Config, ConfigOverrides};

#[test]
fn defaults_with_no_overrides() {
    let mut c = Config::new("/home".to_string());
    c.apply_overrides(ConfigOverrides::none());
    assert_eq!(c.tendermint.host, "127.0.0.1");
    assert_eq!(c.tendermint.port, "26658");
    assert_eq!(c.tendermint.network, "mainnet");
    assert_eq!(c.p2p.host, "127.0.0.1");
    assert_eq!(c.p2p.port, "20201");
    assert!(c.p2p.peers.is_empty());
    assert!(c.p2p.topics.is_empty());
    assert_eq!(c.db_home_dir(), "/home/db");
    assert_eq!(c.tendermint_home_dir(), "/home/tendermint");
    assert_eq!(c.gossip_home_dir(), "/home/libp2p");
}

#[test]
fn overrides_replace_only_given_fields() {
    let mut c = Config::new("/home".to_string());
    let mut o = ConfigOverrides::none();
    o.db_path = Some("statedb".to_string());
    o.tendermint_port = Some("26000".to_string());
    o.p2p_peers = Some(vec!["peer1".to_string()]);
    c.apply_overrides(o);
    assert_eq!(c.db_home_dir(), "/home/statedb");
    assert_eq!(c.tendermint.port, "26000");
    assert_eq!(c.p2p.peers, vec!["peer1".to_string()]);
    assert_eq!(c.tendermint.host, "127.0.0.1");
    assert_eq!(c.p2p.port, "20201");
    assert_eq!(c.tendermint_home_dir(), "/home/tendermint");
}
