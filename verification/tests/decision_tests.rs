use pyth_updater::config::FeedConfig;
use pyth_updater::decision::{should_update, FeedState};

// Prices are fixed point with eight fractional decimal digits; thresholds
// are in thousandths of a percent.
const ONE: u64 = 100_000_000;

fn feed(threshold_millipct: u64, heartbeat_seconds: u64) -> FeedConfig {
    FeedConfig {
        price_feed_id: "ff".repeat(32),
        symbol: "ETH/USD".to_string(),
        deviation_threshold_millipct: threshold_millipct,
        heartbeat_seconds,
        networks: vec!["alpha".to_string()],
    }
}

fn state(last_price: u64, last_confirmed_at: u64) -> FeedState {
    FeedState { last_price, last_confirmed_at }
}

#[test]
fn sentinel_always_updates() {
    let f = feed(1000, 3600);
    let st = state(0, 1_000);
    assert!(should_update(&f, &st, 0, 1_000));
    assert!(should_update(&f, &st, 100 * ONE, 1_000));
    assert!(should_update(&f, &st, u64::MAX, 0));
}

#[test]
fn small_move_within_heartbeat_skips() {
    // last 100.0, threshold 1.0%, fresh 100.4: 0.4% < 1% and heartbeat fresh.
    let f = feed(1000, 3600);
    let st = state(100 * ONE, 1_000);
    assert!(!should_update(&f, &st, 100 * ONE + 40_000_000, 1_500));
}

#[test]
fn move_beyond_threshold_updates() {
    // last 100.0, threshold 1.0%, fresh 101.5: 1.5% >= 1%.
    let f = feed(1000, 3600);
    let st = state(100 * ONE, 1_000);
    assert!(should_update(&f, &st, 101 * ONE + 50_000_000, 1_500));
}

#[test]
fn heartbeat_elapsed_updates_with_unchanged_price() {
    // heartbeat 3600s, elapsed 3601s, price unchanged.
    let f = feed(1000, 3600);
    let st = state(100 * ONE, 1_000);
    assert!(should_update(&f, &st, 100 * ONE, 1_000 + 3_601));
}

#[test]
fn heartbeat_boundary_is_inclusive() {
    let f = feed(1000, 3600);
    let st = state(100 * ONE, 1_000);
    assert!(should_update(&f, &st, 100 * ONE, 1_000 + 3_600));
    assert!(!should_update(&f, &st, 100 * ONE, 1_000 + 3_599));
}

#[test]
fn deviation_boundary_is_inclusive() {
    // last 100.0, threshold 1.0%: a move of exactly 1.0 triggers, one unit
    // below it does not.
    let f = feed(1000, 3600);
    let st = state(100 * ONE, 1_000);
    assert!(should_update(&f, &st, 101 * ONE, 1_500));
    assert!(!should_update(&f, &st, 101 * ONE - 1, 1_500));
    // The same boundary downwards.
    assert!(should_update(&f, &st, 99 * ONE, 1_500));
    assert!(!should_update(&f, &st, 99 * ONE + 1, 1_500));
}

#[test]
fn skip_decision_is_idempotent_within_window() {
    // Unchanged price, confirmation within the heartbeat window: repeated
    // evaluation keeps answering false until the heartbeat elapses.
    let f = feed(1000, 3600);
    let st = state(100 * ONE, 1_000);
    let fresh = 100 * ONE + 40_000_000;
    for now in [1_000u64, 1_100, 2_000, 1_000 + 3_599] {
        assert!(!should_update(&f, &st, fresh, now));
    }
    assert!(should_update(&f, &st, fresh, 1_000 + 3_600));
}

#[test]
fn zero_threshold_updates_on_any_move() {
    let f = feed(0, 3600);
    let st = state(100 * ONE, 1_000);
    assert!(should_update(&f, &st, 100 * ONE, 1_001));
    assert!(should_update(&f, &st, 100 * ONE + 1, 1_001));
}
