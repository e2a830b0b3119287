use call_tracer::ident::{module_name_of, owner_of};
use call_tracer::query::{finish_replay, AppConfig, QueryError};

#[test]
fn identity_splitting_finds_owner_and_module() {
    assert_eq!(owner_of("0xabc::mod"), "0xabc");
    assert_eq!(owner_of("0xabc::mod::extra"), "0xabc");
    assert_eq!(owner_of("plain"), "plain");
    assert_eq!(owner_of(""), "");
    assert_eq!(module_name_of("0xabc::mod"), Some("mod".to_string()));
    assert_eq!(module_name_of("0xabc::mod::extra"), Some("mod".to_string()));
    assert_eq!(module_name_of("plain"), None);
}

#[test]
fn config_parses_network_endpoint_pairs() {
    let c = AppConfig::new("sui_mainnet=https://rpc.one,sui_testnet=https://rpc.two").unwrap();
    assert_eq!(c.networks.len(), 2);
    assert_eq!(c.networks[0].network_id, "sui_mainnet");
    assert_eq!(c.networks[0].rpc_url, "https://rpc.one");
    assert_eq!(c.networks[1].network_id, "sui_testnet");
    assert_eq!(c.networks[1].rpc_url, "https://rpc.two");
}

#[test]
fn config_keeps_everything_after_first_equals() {
    let c = AppConfig::new("net=https://host?k=v").unwrap();
    assert_eq!(c.networks[0].rpc_url, "https://host?k=v");
}

#[test]
fn malformed_config_piece_is_refused() {
    assert!(AppConfig::new("sui_mainnet=https://rpc.one,oops").is_none());
    assert!(AppConfig::new("oops").is_none());
}

#[test]
fn known_network_resolves_to_its_endpoint() {
    let c = AppConfig::new("sui_mainnet=https://rpc.one").unwrap();
    let url = c.resolve_network(&"sui_mainnet".to_string()).unwrap();
    assert_eq!(url, "https://rpc.one");
}

#[test]
fn unknown_network_is_refused_without_replay() {
    let c = AppConfig::new("sui_mainnet=https://rpc.one").unwrap();
    match c.resolve_network(&"sui_devnet".to_string()) {
        Ok(_) => panic!("unknown network must be refused"),
        Err(QueryError::UnknownNetwork(n)) => assert_eq!(n, "sui_devnet"),
        Err(QueryError::ReplayFailed(_)) => panic!("no replay may be attempted"),
    }
}

#[test]
fn error_bodies_name_the_failure() {
    let e = QueryError::UnknownNetwork("sui_devnet".to_string());
    assert_eq!(e.error_body(), "Network sui_devnet not found");
    let r = QueryError::ReplayFailed("state fetch timed out".to_string());
    assert_eq!(r.error_body(), "state fetch timed out");
}

#[test]
fn replay_outcome_passes_through_or_surfaces_detail() {
    assert_eq!(finish_replay(Ok(None)), Ok(None));
    match finish_replay(Err("boom".to_string())) {
        Err(QueryError::ReplayFailed(d)) => assert_eq!(d, "boom"),
        _ => panic!("a replay failure must surface as ReplayFailed"),
    }
}
