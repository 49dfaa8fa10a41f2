use pyth_updater::config::{validate_config, Config, FeedConfig, NetworkConfig};
use pyth_updater::cycle::{commit_on_chain, OnChainRead};
use pyth_updater::decision::should_update;
use pyth_updater::store::FeedStateStore;
use pyth_updater::OracleError;

fn network(name: &str) -> NetworkConfig {
    NetworkConfig {
        name: name.to_string(),
        chain_id: 10,
        rpc_url: format!("https://rpc.{}.example", name),
        pyth_contract: "0x2880aB155794e7179c9eE2e38200202908C17B43".to_string(),
        private_key: String::new(),
        native_feed_id: "ab".repeat(32),
        block_explorer: format!("https://scan.{}.example", name),
    }
}

fn feed(id_byte: &str, networks: &[&str]) -> FeedConfig {
    FeedConfig {
        price_feed_id: id_byte.repeat(32),
        symbol: "ETH/USD".to_string(),
        deviation_threshold_millipct: 1000,
        heartbeat_seconds: 3600,
        networks: networks.iter().map(|n| n.to_string()).collect(),
    }
}

fn config() -> Config {
    Config {
        networks: vec![network("alpha"), network("beta")],
        feeds: vec![feed("aa", &["alpha", "beta"]), feed("bb", &["beta"])],
        pyth_hermes_url: "https://hermes.example".to_string(),
        poll_interval_seconds: 30,
    }
}

#[test]
fn valid_config_passes_validation() {
    assert_eq!(validate_config(&config()), Ok(()));
}

#[test]
fn undeclared_network_is_a_configuration_error() {
    let mut c = config();
    c.feeds[1].networks = vec!["gamma".to_string()];
    assert_eq!(validate_config(&c), Err(OracleError::Configuration));
}

#[test]
fn bad_feed_identifier_is_a_configuration_error() {
    let mut c = config();
    c.feeds[0].price_feed_id = "zz".repeat(32);
    assert_eq!(validate_config(&c), Err(OracleError::Configuration));
    c.feeds[0].price_feed_id = "abc".to_string();
    assert_eq!(validate_config(&c), Err(OracleError::Configuration));
}

#[test]
fn duplicate_network_name_is_a_configuration_error() {
    let mut c = config();
    c.networks[1].name = "alpha".to_string();
    assert_eq!(validate_config(&c), Err(OracleError::Configuration));
}

#[test]
fn zero_heartbeat_is_a_configuration_error() {
    let mut c = config();
    c.feeds[0].heartbeat_seconds = 0;
    assert_eq!(validate_config(&c), Err(OracleError::Configuration));
}

#[test]
fn store_seeds_every_declared_pair_with_the_sentinel() {
    let c = config();
    let store = FeedStateStore::new(&c, 999);
    for (f, n) in [(0usize, 0usize), (0, 1), (1, 1)] {
        let st = store.get(f, n).unwrap();
        assert_eq!(st.last_price, 0);
        assert_eq!(st.last_confirmed_at, 999);
    }
    // feed 1 does not target network 0: the pair was never declared.
    assert_eq!(store.get(1, 0), Err(OracleError::Configuration));
    assert_eq!(store.get(5, 0), Err(OracleError::Configuration));
}

#[test]
fn set_overwrites_one_pair_and_nothing_else() {
    let c = config();
    let mut store = FeedStateStore::new(&c, 0);
    assert_eq!(store.set(0, 1, 42, 100), Ok(()));
    assert_eq!(store.get(0, 1).unwrap().last_price, 42);
    assert_eq!(store.get(0, 1).unwrap().last_confirmed_at, 100);
    assert_eq!(store.get(0, 0).unwrap().last_price, 0);
    assert_eq!(store.get(1, 1).unwrap().last_price, 0);
    assert_eq!(store.set(1, 0, 7, 7), Err(OracleError::Configuration));
    assert_eq!(store.get(1, 0), Err(OracleError::Configuration));
}

#[test]
fn failed_seed_read_leaves_the_sentinel_and_forces_an_update() {
    // An on-chain read that fails at seeding leaves the pair at the
    // sentinel, so the first running cycle decides to push it.
    let c = config();
    let mut store = FeedStateStore::new(&c, 999);
    assert_eq!(commit_on_chain(&mut store, 0, 0, None), Ok(false));
    let st = store.get(0, 0).unwrap();
    assert_eq!(st.last_price, 0);
    assert!(should_update(&c.feeds[0], &st, 100, 999));
}

#[test]
fn successful_seed_read_commits_the_on_chain_value() {
    let c = config();
    let mut store = FeedStateStore::new(&c, 0);
    let read = OnChainRead { mantissa: 6_000_000_000_000, expo: -8, publish_time: 555 };
    assert_eq!(commit_on_chain(&mut store, 0, 0, Some(read)), Ok(true));
    let st = store.get(0, 0).unwrap();
    assert_eq!(st.last_price, 6_000_000_000_000);
    assert_eq!(st.last_confirmed_at, 555);
}

#[test]
fn unrepresentable_read_is_skipped() {
    let c = config();
    let mut store = FeedStateStore::new(&c, 1);
    let read = OnChainRead { mantissa: -5, expo: -8, publish_time: 555 };
    assert_eq!(commit_on_chain(&mut store, 0, 0, Some(read)), Ok(false));
    assert_eq!(store.get(0, 0).unwrap().last_price, 0);
    assert_eq!(store.get(0, 0).unwrap().last_confirmed_at, 1);
}

#[test]
fn reconciliation_of_one_network_leaves_the_other_untouched() {
    // A submission failure on network beta makes no commits for it, while
    // alpha's reconciliation goes through: beta's pairs stay as they were.
    let c = config();
    let mut store = FeedStateStore::new(&c, 10);
    let read = OnChainRead { mantissa: 7_000_000_000_000, expo: -8, publish_time: 70 };
    assert_eq!(commit_on_chain(&mut store, 0, 0, Some(read)), Ok(true));
    // Network beta (index 1) saw no commit: both its pairs are unchanged.
    assert_eq!(store.get(0, 1).unwrap().last_price, 0);
    assert_eq!(store.get(0, 1).unwrap().last_confirmed_at, 10);
    assert_eq!(store.get(1, 1).unwrap().last_price, 0);
    // Alpha's pair carries the confirmed value.
    assert_eq!(store.get(0, 0).unwrap().last_price, 7_000_000_000_000);
    assert_eq!(store.get(0, 0).unwrap().last_confirmed_at, 70);
}
