//! The update decision engine: a pure function of the feed configuration,
//! the pair's last confirmed state and the fresh price.

use vstd::prelude::*;
use crate::config::FeedConfig;

verus! {

/// Last confirmed on-chain observation for one (feed, network) pair.
///
/// `last_price` is a fixed-point price scaled to eight fractional decimal
/// digits; `0` is the sentinel for "never observed on-chain".
/// `last_confirmed_at` is a unix timestamp in seconds.
#[derive(Clone, Copy, Debug, PartialEq, Eq, Structural)]
pub struct FeedState {
    pub last_price: u64,
    pub last_confirmed_at: u64,
}

pub open spec fn abs_diff(a: int, b: int) -> int {
    if a >= b {
        a - b
    } else {
        b - a
    }
}

/// The on-chain value is staler than the feed's heartbeat allows.
pub open spec fn heartbeat_due(state: FeedState, heartbeat_seconds: u64, now: u64) -> bool {
    now - state.last_confirmed_at >= heartbeat_seconds
}

/// The relative price movement reaches the deviation threshold.
///
/// The percentage test `|current - last| / last * 100 >= threshold / 1000`
/// (threshold in milli-percent, `last > 0`) is stated here cross-multiplied
/// by `1000 * last`, which keeps it exact over the integers:
/// `|current - last| * 100_000 >= threshold * last`.
pub open spec fn deviation_reached(
    last_price: u64,
    current_price: u64,
    threshold_millipct: u64,
) -> bool {
    abs_diff(current_price as int, last_price as int) * 100_000
        >= threshold_millipct * last_price
}

/// The decision, first match wins: sentinel state, then heartbeat
/// staleness, then price deviation; otherwise no update.
pub open spec fn spec_should_update(
    feed: FeedConfig,
    state: FeedState,
    current_price: u64,
    now: u64,
) -> bool {
    if state.last_price == 0 {
        true
    } else if heartbeat_due(state, feed.heartbeat_seconds, now) {
        true
    } else {
        deviation_reached(state.last_price, current_price, feed.deviation_threshold_millipct)
    }
}

proof fn lemma_mul_le(a: int, b: int, al: int, bl: int)
    by (nonlinear_arith)
    requires
        0 <= a <= al,
        0 <= b <= bl,
    ensures
        a * b <= al * bl,
{
}

/// Decide whether the pair needs a push: pure and side-effect free.
pub fn should_update(feed: &FeedConfig, state: &FeedState, current_price: u64, now: u64) -> (r:
    bool)
    ensures
        r == spec_should_update(*feed, *state, current_price, now),
{
    if state.last_price == 0 {
        return true;
    }
    if now >= state.last_confirmed_at && now - state.last_confirmed_at >= feed.heartbeat_seconds {
        return true;
    }
    let diff: u64 = if current_price >= state.last_price {
        current_price - state.last_price
    } else {
        state.last_price - current_price
    };
    proof {
        lemma_mul_le(diff as int, 100_000, u64::MAX as int, 100_000);
        lemma_mul_le(
            feed.deviation_threshold_millipct as int,
            state.last_price as int,
            u64::MAX as int,
            u64::MAX as int,
        );
    }
    let lhs: u128 = (diff as u128) * 100_000;
    let rhs: u128 = (feed.deviation_threshold_millipct as u128) * (state.last_price as u128);
    lhs >= rhs
}

/// Law: a sentinel last price forces an update, regardless of the current
/// price and of time.
pub proof fn lemma_sentinel_forces_update(
    feed: FeedConfig,
    state: FeedState,
    current_price: u64,
    now: u64,
)
    requires
        state.last_price == 0,
    ensures
        spec_should_update(feed, state, current_price, now),
{
}

/// Law: once the heartbeat has elapsed, the decision is an update,
/// regardless of the price movement.
pub proof fn lemma_heartbeat_forces_update(
    feed: FeedConfig,
    state: FeedState,
    current_price: u64,
    now: u64,
)
    requires
        now - state.last_confirmed_at >= feed.heartbeat_seconds,
    ensures
        spec_should_update(feed, state, current_price, now),
{
}

/// Law: with a real last price and a fresh confirmation, the decision is
/// exactly the deviation test — a movement equal to the threshold triggers,
/// anything strictly below it does not.
pub proof fn lemma_deviation_boundary(
    feed: FeedConfig,
    state: FeedState,
    current_price: u64,
    now: u64,
)
    requires
        state.last_price != 0,
        now - state.last_confirmed_at < feed.heartbeat_seconds,
    ensures
        spec_should_update(feed, state, current_price, now) == deviation_reached(
            state.last_price,
            current_price,
            feed.deviation_threshold_millipct,
        ),
        abs_diff(current_price as int, state.last_price as int) * 100_000
            == feed.deviation_threshold_millipct * state.last_price ==> spec_should_update(
            feed,
            state,
            current_price,
            now,
        ),
        abs_diff(current_price as int, state.last_price as int) * 100_000
            < feed.deviation_threshold_millipct * state.last_price ==> !spec_should_update(
            feed,
            state,
            current_price,
            now,
        ),
{
}

/// Law: idempotence of a skip. While the price has not moved enough and the
/// state is a real observation, re-evaluating the decision at any time
/// within the heartbeat window keeps returning false; only an elapsed
/// heartbeat or a price movement can change it.
pub proof fn lemma_skip_is_stable(feed: FeedConfig, state: FeedState, current_price: u64)
    requires
        state.last_price != 0,
        !deviation_reached(state.last_price, current_price, feed.deviation_threshold_millipct),
    ensures
        forall|now: u64|
            now - state.last_confirmed_at < feed.heartbeat_seconds ==> !spec_should_update(
                feed,
                state,
                current_price,
                now,
            ),
{
}

} // verus!
