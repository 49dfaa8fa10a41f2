//! One update cycle: resolve the snapshot against the declared feeds,
//! decide per (feed, network) pair, batch positive decisions per network,
//! and commit authoritative on-chain reads back into the store.

use vstd::prelude::*;
use crate::OracleError;
use crate::config::{Config, pair_declared};
use crate::decision::{FeedState, should_update, spec_should_update};
use crate::hexstr::{str_bytes, strip_0x, matches_feed_id};
use crate::pyth_api::{ParsedPrice, PythPriceResponse, parse_price, spec_price_of, spec_scaled_price, scaled_price};
use crate::store::{FeedStateStore, contains_name, spec_set};

verus! {

/// The quote identifier, once its "0x" marker is removed, spells the feed
/// identifier.
pub open spec fn spec_id_matches(p: ParsedPrice, feed_id: Seq<char>) -> bool {
    strip_0x(str_bytes(p.id@)) == str_bytes(feed_id)
}

/// The index of the last quote in the snapshot that names the feed, or -1;
/// when identifiers repeat, the last quote wins.
pub open spec fn last_match(entries: Seq<ParsedPrice>, feed_id: Seq<char>) -> int
    decreases entries.len(),
{
    if entries.len() == 0 {
        -1
    } else if spec_id_matches(entries.last(), feed_id) {
        entries.len() - 1
    } else {
        last_match(entries.drop_last(), feed_id)
    }
}

/// The quote of the snapshot that a feed's decision is made against.
pub open spec fn spec_quote_for(response: PythPriceResponse, feed_id: Seq<char>) -> Option<
    ParsedPrice,
> {
    if last_match(response.parsed@, feed_id) >= 0 {
        Some(response.parsed@[last_match(response.parsed@, feed_id)])
    } else {
        None
    }
}

/// Resolve one snapshot against the configuration's feed list: for each
/// feed, the engine price of its quote, or nothing when the snapshot has no
/// quote for it. A quote that names a feed but does not parse makes the
/// whole snapshot unusable: no partial decisions are made from it.
#[verifier::loop_isolation(false)]
pub fn snapshot_from_response(config: &Config, response: &PythPriceResponse) -> (r: Result<
    Vec<Option<u64>>,
    OracleError,
>)
    ensures
        match r {
            Ok(v) => v@.len() == config.feeds@.len() && forall|f: int|
                0 <= f < config.feeds@.len()
                    ==> match spec_quote_for(*response, (#[trigger] config.feeds@[f]).price_feed_id@) {
                    Some(q) => spec_price_of(q) is Some && (#[trigger] v@[f]) == spec_price_of(q),
                    None => v@[f] is None,
                },
            Err(e) => e == OracleError::SnapshotFetch && exists|f: int|
                0 <= f < config.feeds@.len()
                    && match spec_quote_for(*response, (#[trigger] config.feeds@[f]).price_feed_id@) {
                    Some(q) => spec_price_of(q) is None,
                    None => false,
                },
        },
{
    let mut out: Vec<Option<u64>> = Vec::new();
    let entry_count = response.parsed.len();
    for f in 0..config.feeds.len()
        invariant
            entry_count == response.parsed@.len(),
            out@.len() == f,
            forall|k: int|
                0 <= k < f ==> match spec_quote_for(
                    *response,
                    (#[trigger] config.feeds@[k]).price_feed_id@,
                ) {
                    Some(q) => spec_price_of(q) is Some && (#[trigger] out@[k]) == spec_price_of(
                        q,
                    ),
                    None => out@[k] is None,
                },
    {
        let ghost fid = config.feeds@[f as int].price_feed_id@;
        let mut found: Option<usize> = None;
        for j in 0..entry_count
            invariant
                entry_count == response.parsed@.len(),
                0 <= f < config.feeds@.len(),
                fid == config.feeds@[f as int].price_feed_id@,
                match found {
                    Some(k) => k < j && last_match(response.parsed@.take(j as int), fid)
                        == k as int,
                    None => last_match(response.parsed@.take(j as int), fid) == -1,
                },
        {
            let is_match = matches_feed_id(
                response.parsed[j].id.as_str(),
                config.feeds[f].price_feed_id.as_str(),
            );
            proof {
                assert(response.parsed@.take(j + 1).drop_last() =~= response.parsed@.take(
                    j as int,
                ));
                assert(response.parsed@.take(j + 1).last() == response.parsed@[j as int]);
            }
            if is_match {
                found = Some(j);
            }
        }
        proof {
            assert(response.parsed@.take(entry_count as int) =~= response.parsed@);
        }
        match found {
            Some(k) => {
                match parse_price(&response.parsed[k]) {
                    Ok(p) => {
                        out.push(Some(p));
                    },
                    Err(e) => {
                        return Err(e);
                    },
                }
            },
            None => {
                out.push(None);
            },
        }
    }
    Ok(out)
}

/// Feed f must be pushed to network n in this cycle: the pair is declared,
/// the snapshot has a price for the feed, and the decision engine says so
/// against the pair's current state.
pub open spec fn spec_selected(
    config: Config,
    store: FeedStateStore,
    prices: Seq<Option<u64>>,
    now: u64,
    f: int,
    n: int,
) -> bool {
    &&& pair_declared(config, f, n)
    &&& match prices[f] {
        Some(p) => spec_should_update(config.feeds[f], store.state_of(f, n), p, now),
        None => false,
    }
}

/// The batch of feeds to push to one network in this cycle.
pub struct NetworkPlan {
    pub network_index: usize,
    pub feed_indexes: Vec<usize>,
}

/// The plan lists feed f for network n.
pub open spec fn plan_selects(plan: Seq<NetworkPlan>, f: int, n: int) -> bool {
    exists|a: int, i: int|
        0 <= a < plan.len() && (#[trigger] plan[a]).network_index == n && 0 <= i
            < plan[a].feed_indexes@.len() && (#[trigger] plan[a].feed_indexes@[i]) == f
}

/// Group the cycle's positive decisions by network: one batch per network
/// that has at least one feed to push, each pair decided exactly once,
/// every network against the same snapshot.
#[verifier::loop_isolation(false)]
pub fn build_update_plan(
    config: &Config,
    store: &FeedStateStore,
    prices: &Vec<Option<u64>>,
    now: u64,
) -> (plan: Vec<NetworkPlan>)
    requires
        store.wf(),
        prices@.len() == config.feeds@.len(),
        forall|f: int, n: int| #[trigger]
            store.has_pair(f, n) <==> pair_declared(*config, f, n),
    ensures
        forall|f: int, n: int| #[trigger]
            plan_selects(plan@, f, n) <==> spec_selected(*config, *store, prices@, now, f, n),
        forall|a: int|
            0 <= a < plan@.len() ==> (#[trigger] plan@[a]).network_index < config.networks@.len()
                && plan@[a].feed_indexes@.len() > 0,
        forall|a: int, b: int|
            0 <= a < b < plan@.len() ==> (#[trigger] plan@[a]).network_index < (
            #[trigger] plan@[b]).network_index,
        forall|a: int, i: int, j: int|
            0 <= a < plan@.len() && 0 <= i < j < plan@[a].feed_indexes@.len() ==> (
            #[trigger] plan@[a].feed_indexes@[i]) < (#[trigger] plan@[a].feed_indexes@[j]),
{
    let mut plan: Vec<NetworkPlan> = Vec::new();
    for n in 0..config.networks.len()
        invariant
            forall|a: int|
                0 <= a < plan@.len() ==> (#[trigger] plan@[a]).network_index < n
                    && plan@[a].feed_indexes@.len() > 0,
            forall|a: int, b: int|
                0 <= a < b < plan@.len() ==> (#[trigger] plan@[a]).network_index < (
                #[trigger] plan@[b]).network_index,
            forall|a: int, i: int, j: int|
                0 <= a < plan@.len() && 0 <= i < j < plan@[a].feed_indexes@.len()
                    ==> (#[trigger] plan@[a].feed_indexes@[i]) < (#[trigger] plan@[a].feed_indexes@[j]),
            forall|f: int, nn: int|
                nn < n ==> (#[trigger] plan_selects(plan@, f, nn) <==> spec_selected(
                    *config,
                    *store,
                    prices@,
                    now,
                    f,
                    nn,
                )),
            forall|f: int, nn: int|
                nn >= n ==> !#[trigger] plan_selects(plan@, f, nn),
    {
        let mut feeds: Vec<usize> = Vec::new();
        for f in 0..config.feeds.len()
            invariant
                0 <= n < config.networks@.len(),
                forall|i: int|
                    0 <= i < feeds@.len() ==> (#[trigger] feeds@[i]) < f,
                forall|i: int, j: int|
                    0 <= i < j < feeds@.len() ==> (#[trigger] feeds@[i]) < (#[trigger] feeds@[j]),
                forall|ff: int|
                    (exists|i: int|
                        0 <= i < feeds@.len() && (#[trigger] feeds@[i]) == ff) <==> (0 <= ff
                        < f && #[trigger] spec_selected(
                        *config,
                        *store,
                        prices@,
                        now,
                        ff,
                        n as int,
                    )),
        {
            let ghost pre_feeds = feeds@;
            let declared = contains_name(&config.feeds[f].networks, &config.networks[n].name);
            let mut pushed = false;
            if declared {
                let price_ref = &prices[f];
                match price_ref {
                    Some(p) => {
                        let state = match store.get(f, n) {
                            Ok(s) => s,
                            Err(_) => {
                                proof {
                                    assert(false);
                                }
                                FeedState { last_price: 0, last_confirmed_at: 0 }
                            },
                        };
                        if should_update(&config.feeds[f], &state, *p, now) {
                            feeds.push(f);
                            pushed = true;
                        }
                    },
                    None => {},
                }
            }
            proof {
                assert(pushed == spec_selected(*config, *store, prices@, now, f as int, n as int));
                assert forall|ff: int| (exists|i: int|
                    0 <= i < feeds@.len() && (#[trigger] feeds@[i]) == ff) <==> (0 <= ff < f + 1
                    && #[trigger] spec_selected(
                    *config,
                    *store,
                    prices@,
                    now,
                    ff,
                    n as int,
                )) by {
                    if exists|i: int| 0 <= i < feeds@.len() && (#[trigger] feeds@[i]) == ff {
                        let i = choose|i: int|
                            0 <= i < feeds@.len() && (#[trigger] feeds@[i]) == ff;
                        if pushed && i == pre_feeds.len() as int {
                        } else {
                            assert(pre_feeds[i] == ff);
                        }
                    }
                    if 0 <= ff < f + 1 && spec_selected(*config, *store, prices@, now, ff, n as int) {
                        if ff == f as int {
                            assert(feeds@[feeds@.len() - 1] == ff);
                        } else {
                            let i = choose|i: int|
                                0 <= i < pre_feeds.len() && (#[trigger] pre_feeds[i]) == ff;
                            assert(feeds@[i] == ff);
                        }
                    }
                }
            }
        }
        let ghost pre_plan = plan@;
        if feeds.len() > 0 {
            plan.push(NetworkPlan { network_index: n, feed_indexes: feeds });
        }
        proof {
            assert forall|f: int, nn: int| nn < n + 1 implies (#[trigger] plan_selects(
                plan@,
                f,
                nn,
            ) <==> spec_selected(*config, *store, prices@, now, f, nn)) by {
                if plan_selects(plan@, f, nn) {
                    let (a, i): (int, int) = choose|a: int, i: int|
                        0 <= a < plan@.len() && (#[trigger] plan@[a]).network_index == nn && 0 <= i
                            < plan@[a].feed_indexes@.len() && (#[trigger] plan@[a].feed_indexes@[i])
                            == f;
                    if a < pre_plan.len() as int {
                        assert(plan_selects(pre_plan, f, nn));
                    }
                }
                if spec_selected(*config, *store, prices@, now, f, nn) {
                    if nn < n {
                        assert(plan_selects(pre_plan, f, nn));
                        let (a, i): (int, int) = choose|a: int, i: int|
                            0 <= a < pre_plan.len() && (#[trigger] pre_plan[a]).network_index == nn
                                && 0 <= i < pre_plan[a].feed_indexes@.len() && (
                            #[trigger] pre_plan[a].feed_indexes@[i]) == f;
                        assert(plan@[a].network_index == nn && plan@[a].feed_indexes@[i] == f);
                        assert(plan_selects(plan@, f, nn));
                    } else {
                        let a = plan@.len() - 1;
                        let i = choose|i: int|
                            0 <= i < plan@[a].feed_indexes@.len() && (
                            #[trigger] plan@[a].feed_indexes@[i]) == f;
                        assert(plan_selects(plan@, f, nn));
                    }
                }
            }
            assert forall|f: int, nn: int| nn >= n + 1 implies !#[trigger] plan_selects(
                plan@,
                f,
                nn,
            ) by {
                if plan_selects(plan@, f, nn) {
                    let (a, i): (int, int) = choose|a: int, i: int|
                        0 <= a < plan@.len() && (#[trigger] plan@[a]).network_index == nn && 0 <= i
                            < plan@[a].feed_indexes@.len() && (#[trigger] plan@[a].feed_indexes@[i])
                            == f;
                    assert(plan@[a].network_index <= n as int);
                }
            }
        }
    }
    plan
}

/// Law: a plan with strictly increasing network indices, and strictly
/// increasing feed indices within each batch, decides every (feed, network)
/// pair at most once per cycle — the pair stands at one position of one
/// batch or at none.
pub proof fn lemma_plan_decides_each_pair_once(plan: Seq<NetworkPlan>)
    requires
        forall|a: int, b: int|
            0 <= a < b < plan.len() ==> (#[trigger] plan[a]).network_index < (
            #[trigger] plan[b]).network_index,
        forall|a: int, i: int, j: int|
            0 <= a < plan.len() && 0 <= i < j < plan[a].feed_indexes@.len() ==> (
            #[trigger] plan[a].feed_indexes@[i]) < (#[trigger] plan[a].feed_indexes@[j]),
    ensures
        forall|a1: int, i1: int, a2: int, i2: int|
            #![trigger plan[a1].feed_indexes@[i1], plan[a2].feed_indexes@[i2]]
            0 <= a1 < plan.len() && 0 <= i1 < plan[a1].feed_indexes@.len() && 0 <= a2 < plan.len()
                && 0 <= i2 < plan[a2].feed_indexes@.len() && plan[a1].network_index
                == plan[a2].network_index && plan[a1].feed_indexes@[i1]
                == plan[a2].feed_indexes@[i2] ==> a1 == a2 && i1 == i2,
{
    assert forall|a1: int, i1: int, a2: int, i2: int|
        0 <= a1 < plan.len() && 0 <= i1 < plan[a1].feed_indexes@.len() && 0 <= a2 < plan.len() && 0
            <= i2 < plan[a2].feed_indexes@.len() && plan[a1].network_index
            == plan[a2].network_index && plan[a1].feed_indexes@[i1] == plan[a2].feed_indexes@[i2]
        implies a1 == a2 && i1 == i2 by {
        if a1 < a2 {
            assert(plan[a1].network_index < plan[a2].network_index);
        } else if a2 < a1 {
            assert(plan[a2].network_index < plan[a1].network_index);
        }
        if i1 < i2 {
            assert(plan[a1].feed_indexes@[i1] < plan[a1].feed_indexes@[i2]);
        } else if i2 < i1 {
            assert(plan[a1].feed_indexes@[i2] < plan[a1].feed_indexes@[i1]);
        }
    }
}

/// One authoritative on-chain observation of a feed on one network.
#[derive(Clone, Copy, Debug, PartialEq, Eq, Structural)]
pub struct OnChainRead {
    pub mantissa: i64,
    pub expo: i32,
    pub publish_time: u64,
}

/// The store record an on-chain read confirms, when its price is
/// representable in the engine's fixed point.
pub open spec fn spec_confirmed_state(read: OnChainRead) -> Option<FeedState> {
    match spec_scaled_price(read.mantissa as int, read.expo as int) {
        Some(p) => Some(FeedState { last_price: p, last_confirmed_at: read.publish_time }),
        None => None,
    }
}

/// Commit an authoritative on-chain read for one pair into the store; used
/// both to seed states at startup and to reconcile after a submission. A
/// missing or unrepresentable read leaves the pair untouched (fail-open at
/// seeding, a skip at reconciliation); every other pair's record is left
/// untouched in all cases, so one pair's failure never corrupts another.
pub fn commit_on_chain(
    store: &mut FeedStateStore,
    feed_index: usize,
    network_index: usize,
    read: Option<OnChainRead>,
) -> (r: Result<bool, OracleError>)
    requires
        old(store).wf(),
    ensures
        final (store).wf(),
        match r {
            Ok(committed) => old(store).has_pair(feed_index as int, network_index as int)
                && match read {
                Some(rd) => match spec_confirmed_state(rd) {
                    Some(st) => committed && final (store)@ =~= spec_set(
                        old(store)@,
                        feed_index as int,
                        network_index as int,
                        st,
                    ),
                    None => !committed && final (store)@ == old(store)@,
                },
                None => !committed && final (store)@ == old(store)@,
            },
            Err(e) => e == OracleError::Configuration && !old(store).has_pair(
                feed_index as int,
                network_index as int,
            ) && final (store)@ == old(store)@,
        },
{
    match store.get(feed_index, network_index) {
        Ok(_) => {},
        Err(e) => {
            return Err(e);
        },
    }
    let rd = match read {
        Some(rd) => rd,
        None => {
            return Ok(false);
        },
    };
    let price = match scaled_price(rd.mantissa, rd.expo) {
        Some(p) => p,
        None => {
            return Ok(false);
        },
    };
    match store.set(feed_index, network_index, price, rd.publish_time) {
        Ok(()) => Ok(true),
        Err(_) => {
            proof {
                assert(false);
            }
            Ok(false)
        },
    }
}

/// The fee one submission burned, in the chain's smallest unit: gas used
/// times the gas price it was sent with, where that product is
/// representable.
pub fn transaction_fee_wei(gas_used: u128, gas_price: u128) -> (r: Option<u128>)
    ensures
        match r {
            Some(fee) => fee == gas_used * gas_price,
            None => gas_used * gas_price > u128::MAX,
        },
{
    gas_used.checked_mul(gas_price)
}

} // verus!
