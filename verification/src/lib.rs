//! Verified core of a push-oracle price updater.
//!
//! The service keeps on-chain price oracles fresh: it pulls quotes from an
//! off-chain price service, decides per (feed, network) pair whether an
//! update is warranted (sentinel state, heartbeat staleness, or price
//! deviation), batches positive decisions per network, and reconciles local
//! state from the authoritative on-chain read after a submission.
//!
//! This crate holds the state-reconciliation and update-decision engine with
//! its contracts; the surrounding process (HTTP fetches, RPC calls, the
//! scheduler loop) lives outside and feeds the engine plain values.

use vstd::prelude::*;

pub mod config;
pub mod cycle;
pub mod decision;
pub mod hexstr;
pub mod pyth_api;
pub mod store;
pub mod utils;

verus! {

/// Error taxonomy of the updater core.
#[derive(Clone, Copy, Debug, PartialEq, Eq, Structural)]
pub enum OracleError {
    /// Malformed configuration (undeclared network, bad feed identifier, ...);
    /// fatal at startup, never retried.
    Configuration,
    /// Price service response unusable; aborts the current cycle only.
    SnapshotFetch,
    /// Per-pair on-chain read failure; fail-open at seeding, skipped at
    /// reconciliation.
    OnChainRead,
    /// Fee quote, gas price, submission or receipt failure; aborts
    /// orchestration for one network for one cycle.
    Submission,
}

} // verus!
