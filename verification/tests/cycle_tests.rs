use pyth_updater::config::{Config, FeedConfig, NetworkConfig};
use pyth_updater::cycle::{build_update_plan, snapshot_from_response};
use pyth_updater::pyth_api::{ParsedPrice, PriceData, PythPriceResponse};
use pyth_updater::store::FeedStateStore;
use pyth_updater::OracleError;

fn network(name: &str) -> NetworkConfig {
    NetworkConfig {
        name: name.to_string(),
        chain_id: 1,
        rpc_url: "https://rpc.example".to_string(),
        pyth_contract: "0x2880aB155794e7179c9eE2e38200202908C17B43".to_string(),
        private_key: String::new(),
        native_feed_id: "ab".repeat(32),
        block_explorer: "https://scan.example".to_string(),
    }
}

fn feed(id: &str, networks: &[&str]) -> FeedConfig {
    FeedConfig {
        price_feed_id: id.to_string(),
        symbol: "X/USD".to_string(),
        deviation_threshold_millipct: 1000,
        heartbeat_seconds: 3600,
        networks: networks.iter().map(|n| n.to_string()).collect(),
    }
}

fn quote(id: &str, price: &str, expo: i32) -> ParsedPrice {
    ParsedPrice {
        id: id.to_string(),
        price: PriceData { price: price.to_string(), expo },
    }
}

fn config() -> Config {
    Config {
        networks: vec![network("alpha"), network("beta")],
        feeds: vec![feed("aa11", &["alpha", "beta"]), feed("bb22", &["beta"])],
        pyth_hermes_url: "https://hermes.example".to_string(),
        poll_interval_seconds: 30,
    }
}

#[test]
fn snapshot_resolves_ids_with_their_marker() {
    let c = config();
    let resp = PythPriceResponse {
        parsed: vec![quote("0xaa11", "100", 0), quote("bb22", "200", 0)],
    };
    let prices = snapshot_from_response(&c, &resp).unwrap();
    assert_eq!(prices, vec![Some(10_000_000_000), Some(20_000_000_000)]);
}

#[test]
fn snapshot_leaves_a_gap_for_a_missing_feed() {
    let c = config();
    let resp = PythPriceResponse { parsed: vec![quote("0xaa11", "100", 0)] };
    let prices = snapshot_from_response(&c, &resp).unwrap();
    assert_eq!(prices, vec![Some(10_000_000_000), None]);
}

#[test]
fn snapshot_takes_the_last_quote_of_a_repeated_id() {
    let c = config();
    let resp = PythPriceResponse {
        parsed: vec![quote("aa11", "100", 0), quote("0xaa11", "150", 0)],
    };
    let prices = snapshot_from_response(&c, &resp).unwrap();
    assert_eq!(prices[0], Some(15_000_000_000));
}

#[test]
fn one_bad_quote_aborts_the_whole_snapshot() {
    let c = config();
    let resp = PythPriceResponse {
        parsed: vec![quote("0xaa11", "100", 0), quote("bb22", "oops", 0)],
    };
    assert_eq!(snapshot_from_response(&c, &resp), Err(OracleError::SnapshotFetch));
}

#[test]
fn plan_groups_positive_decisions_by_network() {
    let c = config();
    // Every pair starts at the sentinel, so every declared pair is pushed.
    let store = FeedStateStore::new(&c, 0);
    let prices = vec![Some(10_000_000_000u64), Some(20_000_000_000u64)];
    let plan = build_update_plan(&c, &store, &prices, 100);
    assert_eq!(plan.len(), 2);
    assert_eq!(plan[0].network_index, 0);
    assert_eq!(plan[0].feed_indexes, vec![0]);
    assert_eq!(plan[1].network_index, 1);
    assert_eq!(plan[1].feed_indexes, vec![0, 1]);
}

#[test]
fn plan_skips_feeds_without_a_quote_and_fresh_pairs() {
    let c = config();
    let mut store = FeedStateStore::new(&c, 0);
    // Feed 0 on alpha was just confirmed near the fresh price: no push.
    store.set(0, 0, 10_000_000_000, 90).unwrap();
    let prices = vec![Some(10_000_000_000u64), None];
    let plan = build_update_plan(&c, &store, &prices, 100);
    // Feed 0 on beta is still at the sentinel; feed 1 has no quote.
    assert_eq!(plan.len(), 1);
    assert_eq!(plan[0].network_index, 1);
    assert_eq!(plan[0].feed_indexes, vec![0]);
}

#[test]
fn plan_is_empty_when_nothing_moves() {
    let c = config();
    let mut store = FeedStateStore::new(&c, 0);
    store.set(0, 0, 10_000_000_000, 90).unwrap();
    store.set(0, 1, 10_000_000_000, 90).unwrap();
    store.set(1, 1, 20_000_000_000, 90).unwrap();
    let prices = vec![Some(10_000_000_000u64), Some(20_000_000_000u64)];
    let plan = build_update_plan(&c, &store, &prices, 100);
    assert!(plan.is_empty());
}
