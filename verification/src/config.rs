//! Configuration records consumed by the updater core.
//!
//! Prices are handled as fixed-point integers scaled to eight fractional
//! decimal digits, and deviation thresholds in thousandths of a percent
//! (milli-percent), so every decision is exact integer arithmetic.

use vstd::prelude::*;
use vstd::string::StringSliceAdditionalSpecFns;
use crate::OracleError;
use crate::hexstr::{str_bytes, is_hex_seq, is_hex_digit, all_hex_digits};

verus! {

/// One price feed to keep fresh, immutable after load.
#[derive(Clone, Debug)]
pub struct FeedConfig {
    /// 32-byte feed identifier, as 64 lower- or upper-case hex digits.
    pub price_feed_id: String,
    /// Display name of the feed.
    pub symbol: String,
    /// Minimum price movement that justifies an update, in thousandths of a
    /// percent (1000 = 1%). A value of at most 100 (0.1%) marks a stable
    /// feed, which only affects display precision, never the decision.
    pub deviation_threshold_millipct: u64,
    /// Maximum allowed on-chain staleness in seconds before a forced update.
    pub heartbeat_seconds: u64,
    /// Names of the networks this feed is pushed to; non-empty.
    pub networks: Vec<String>,
}

/// One target chain, immutable after load.
#[derive(Clone, Debug)]
pub struct NetworkConfig {
    /// Unique key of the network.
    pub name: String,
    pub chain_id: u64,
    pub rpc_url: String,
    /// Address of the oracle contract on this network.
    pub pyth_contract: String,
    /// Signing credential, injected at process start, never logged.
    pub private_key: String,
    /// Feed identifier of the network's native token, used to price gas.
    pub native_feed_id: String,
    pub block_explorer: String,
}

/// Full configuration surface of the updater core.
#[derive(Clone, Debug)]
pub struct Config {
    pub networks: Vec<NetworkConfig>,
    pub feeds: Vec<FeedConfig>,
    pub pyth_hermes_url: String,
    pub poll_interval_seconds: u64,
}

/// The pair (feed `f`, network `n`) is declared: both indices are in range
/// and the feed lists that network's name.
pub open spec fn pair_declared(config: Config, f: int, n: int) -> bool {
    &&& 0 <= f < config.feeds.len()
    &&& 0 <= n < config.networks.len()
    &&& exists|k: int|
        0 <= k < config.feeds[f].networks.len()
            && config.feeds[f].networks[k]@ == config.networks[n].name@
}

/// A well-formed feed: a 32-byte identifier as 64 hexadecimal digits, a
/// positive heartbeat, and at least one target network.
pub open spec fn spec_feed_wf(feed: FeedConfig) -> bool {
    &&& str_bytes(feed.price_feed_id@).len() == 64
    &&& is_hex_seq(str_bytes(feed.price_feed_id@))
    &&& feed.heartbeat_seconds >= 1
    &&& feed.networks@.len() > 0
}

/// One of the declared networks carries the name.
pub open spec fn network_declared(config: Config, name: Seq<char>) -> bool {
    exists|n: int| 0 <= n < config.networks@.len() && (#[trigger] config.networks@[n]).name@ == name
}

/// Every network the feed names is declared in the configuration.
pub open spec fn spec_feed_networks_declared(config: Config, f: int) -> bool {
    forall|k: int|
        0 <= k < config.feeds@[f].networks@.len() ==> network_declared(
            config,
            (#[trigger] config.feeds@[f].networks@[k])@,
        )
}

/// A well-formed configuration: a positive poll interval, unique network
/// names, and each feed well-formed with every target network declared.
pub open spec fn spec_config_wf(config: Config) -> bool {
    &&& config.poll_interval_seconds >= 1
    &&& forall|a: int, b: int|
        0 <= a < b < config.networks@.len() ==> (#[trigger] config.networks@[a]).name@ != (
        #[trigger] config.networks@[b]).name@
    &&& forall|f: int|
        0 <= f < config.feeds@.len() ==> spec_feed_wf(#[trigger] config.feeds@[f])
            && spec_feed_networks_declared(config, f)
}

/// A stable feed: its deviation threshold is at most 0.1% (100 thousandths
/// of a percent). The marker only selects a higher display precision; the
/// decision logic is identical.
pub fn is_stable_feed(feed: &FeedConfig) -> (r: bool)
    ensures
        r == (feed.deviation_threshold_millipct <= 100),
{
    feed.deviation_threshold_millipct <= 100
}

/// Whether one of the declared networks carries the name.
#[verifier::loop_isolation(false)]
pub fn find_network(config: &Config, name: &String) -> (r: bool)
    ensures
        r == network_declared(*config, name@),
{
    for i in 0..config.networks.len()
        invariant
            forall|k: int| 0 <= k < i ==> (#[trigger] config.networks@[k]).name@ != name@,
    {
        if config.networks[i].name == *name {
            return true;
        }
    }
    false
}

/// Validate the loaded configuration: a malformed one (a feed naming an
/// undeclared network, a bad identifier, a zero interval or heartbeat, a
/// duplicated network name) is a configuration error, fatal at startup.
#[verifier::loop_isolation(false)]
pub fn validate_config(config: &Config) -> (r: Result<(), OracleError>)
    ensures
        match r {
            Ok(()) => spec_config_wf(*config),
            Err(e) => e == OracleError::Configuration && !spec_config_wf(*config),
        },
{
    if config.poll_interval_seconds < 1 {
        return Err(OracleError::Configuration);
    }
    let network_count = config.networks.len();
    for a in 0..network_count
        invariant
            network_count == config.networks@.len(),
            forall|x: int, y: int|
                0 <= x < y < config.networks@.len() && x < a ==> (
                #[trigger] config.networks@[x]).name@ != (#[trigger] config.networks@[y]).name@,
    {
        for b in (a + 1)..network_count
            invariant
                network_count == config.networks@.len(),
                a < network_count,
                forall|x: int, y: int|
                    0 <= x < y < config.networks@.len() && x < a ==> (
                    #[trigger] config.networks@[x]).name@ != (
                    #[trigger] config.networks@[y]).name@,
                forall|y: int|
                    a < y < b ==> (#[trigger] config.networks@[y]).name@
                        != config.networks@[a as int].name@,
        {
            if config.networks[a].name == config.networks[b].name {
                return Err(OracleError::Configuration);
            }
        }
    }
    for f in 0..config.feeds.len()
        invariant
            forall|k: int|
                0 <= k < f ==> spec_feed_wf(#[trigger] config.feeds@[k])
                    && spec_feed_networks_declared(*config, k),
    {
        let feed = &config.feeds[f];
        if feed.heartbeat_seconds < 1 || feed.networks.len() == 0 {
            proof {
                assert(!spec_feed_wf(config.feeds@[f as int]));
            }
            return Err(OracleError::Configuration);
        }
        let id_str = feed.price_feed_id.as_str();
        proof {
            assert(id_str.spec_bytes() =~= str_bytes(config.feeds@[f as int].price_feed_id@));
        }
        let id_bytes = id_str.as_bytes();
        if id_bytes.len() != 64 || !all_hex_digits(id_str) {
            proof {
                assert(!spec_feed_wf(config.feeds@[f as int]));
            }
            return Err(OracleError::Configuration);
        }
        for k in 0..feed.networks.len()
            invariant
                0 <= f < config.feeds@.len(),
                feed == config.feeds@[f as int],
                forall|kk: int|
                    0 <= kk < k ==> network_declared(
                        *config,
                        (#[trigger] config.feeds@[f as int].networks@[kk])@,
                    ),
        {
            if !find_network(config, &feed.networks[k]) {
                proof {
                    assert(!spec_feed_networks_declared(*config, f as int));
                }
                return Err(OracleError::Configuration);
            }
        }
        proof {
            let fv = config.feeds@[f as int];
            assert(str_bytes(fv.price_feed_id@).len() == 64);
            assert forall|i: int|
                0 <= i < str_bytes(fv.price_feed_id@).len() implies is_hex_digit(
                #[trigger] str_bytes(fv.price_feed_id@)[i],
            ) by {
                assert(str_bytes(fv.price_feed_id@)[i] == id_str.spec_bytes()[i]);
            }
            assert(spec_feed_wf(fv));
            assert(config.feeds@[f as int].networks@.len() == feed.networks@.len());
            assert(spec_feed_networks_declared(*config, f as int));
        }
    }
    Ok(())
}

} // verus!
