//! The feed state store: one mutable record per declared (feed, network)
//! pair, keyed by the pair of indices into the configuration's ordered
//! feed and network lists.

use vstd::prelude::*;
use crate::OracleError;
use crate::config::{Config, pair_declared};
use crate::decision::FeedState;

verus! {

/// One record of the store: the state of feed `feed_index` on network
/// `network_index` (indices into the configuration's ordered lists).
#[derive(Clone, Copy, Debug, PartialEq, Eq, Structural)]
pub struct StoreEntry {
    pub feed_index: usize,
    pub network_index: usize,
    pub state: FeedState,
}

/// In-memory mapping from (feed, network) to the last confirmed on-chain
/// price and timestamp. Exactly one entry exists per declared pair; entries
/// are created once at process start and never destroyed.
pub struct FeedStateStore {
    entries: Vec<StoreEntry>,
}

pub open spec fn entry_matches(e: StoreEntry, f: int, n: int) -> bool {
    e.feed_index == f && e.network_index == n
}

/// The entry's pair comes strictly before (f, n) in lexicographic order.
pub open spec fn lex_before(e: StoreEntry, f: int, n: int) -> bool {
    e.feed_index < f || (e.feed_index == f && e.network_index < n)
}

pub open spec fn lex_pair_before(ff: int, nn: int, f: int, n: int) -> bool {
    ff < f || (ff == f && nn < n)
}

/// No two entries share a (feed, network) pair.
pub open spec fn pairwise_distinct(s: Seq<StoreEntry>) -> bool {
    forall|i: int, j: int|
        0 <= i < j < s.len() ==> !((#[trigger] s[i]).feed_index == (#[trigger] s[j]).feed_index
            && s[i].network_index == s[j].network_index)
}

/// The store after overwriting the state of pair (f, n): every entry of
/// another pair is untouched.
pub open spec fn spec_set(entries: Seq<StoreEntry>, f: int, n: int, st: FeedState) -> Seq<
    StoreEntry,
> {
    entries.map(
        |i: int, e: StoreEntry|
            if entry_matches(e, f, n) {
                StoreEntry { feed_index: e.feed_index, network_index: e.network_index, state: st }
            } else {
                e
            },
    )
}

impl FeedStateStore {
    pub closed spec fn view(&self) -> Seq<StoreEntry> {
        self.entries@
    }

    pub open spec fn wf(&self) -> bool {
        pairwise_distinct(self@)
    }

    pub open spec fn has_pair(&self, f: int, n: int) -> bool {
        exists|i: int| 0 <= i < self@.len() && entry_matches(#[trigger] self@[i], f, n)
    }

    pub open spec fn pair_index(&self, f: int, n: int) -> int {
        choose|i: int| 0 <= i < self@.len() && entry_matches(#[trigger] self@[i], f, n)
    }

    /// The state stored for pair (f, n); meaningful only when `has_pair`.
    pub open spec fn state_of(&self, f: int, n: int) -> FeedState {
        self@[self.pair_index(f, n)].state
    }

    /// In a well-formed store, any entry that matches (f, n) is the one
    /// `state_of` speaks about.
    pub proof fn lemma_match_is_unique(&self, f: int, n: int, i: int)
        requires
            self.wf(),
            0 <= i < self@.len(),
            entry_matches(self@[i], f, n),
        ensures
            self.has_pair(f, n),
            self.pair_index(f, n) == i,
            self.state_of(f, n) == self@[i].state,
    {
        assert(self.has_pair(f, n));
        let j = self.pair_index(f, n);
        assert(0 <= j < self@.len() && entry_matches(self@[j], f, n));
        if i < j {
            assert(!(self@[i].feed_index == self@[j].feed_index && self@[i].network_index
                == self@[j].network_index));
            assert(false);
        } else if j < i {
            assert(!(self@[j].feed_index == self@[i].feed_index && self@[j].network_index
                == self@[i].network_index));
            assert(false);
        }
    }

    /// One store record per declared (feed, network) pair, every state at
    /// the sentinel price 0 ("never observed on-chain") with `now` as the
    /// initial confirmation time.
    pub fn new(config: &Config, now: u64) -> (store: FeedStateStore)
        ensures
            store.wf(),
            forall|f: int, n: int| #[trigger]
                store.has_pair(f, n) <==> pair_declared(*config, f, n),
            forall|i: int|
                0 <= i < store@.len() ==> (#[trigger] store@[i]).state == (FeedState {
                    last_price: 0,
                    last_confirmed_at: now,
                }),
    {
        let mut entries: Vec<StoreEntry> = Vec::new();
        let feed_count = config.feeds.len();
        let network_count = config.networks.len();
        for f in 0..feed_count
            invariant
                feed_count == config.feeds@.len(),
                network_count == config.networks@.len(),
                pairwise_distinct(entries@),
                forall|i: int|
                    0 <= i < entries@.len() ==> lex_before(#[trigger] entries@[i], f as int, 0)
                        && entries@[i].network_index < config.networks@.len()
                        && entries@[i].state == (FeedState { last_price: 0, last_confirmed_at: now }),
                forall|ff: int, nn: int|
                    0 <= ff && 0 <= nn < config.networks@.len() && lex_pair_before(
                        ff,
                        nn,
                        f as int,
                        0,
                    ) ==> ((exists|i: int|
                        0 <= i < entries@.len() && entry_matches(#[trigger] entries@[i], ff, nn))
                        <==> pair_declared(*config, ff, nn)),
        {
            for n in 0..network_count
                invariant
                    feed_count == config.feeds@.len(),
                    network_count == config.networks@.len(),
                    0 <= f < config.feeds@.len(),
                    pairwise_distinct(entries@),
                    forall|i: int|
                        0 <= i < entries@.len() ==> lex_before(
                            #[trigger] entries@[i],
                            f as int,
                            n as int,
                        ) && entries@[i].network_index < config.networks@.len() && entries@[i].state == (FeedState { last_price: 0, last_confirmed_at: now }),
                    forall|ff: int, nn: int|
                        0 <= ff && 0 <= nn < config.networks@.len() && lex_pair_before(
                            ff,
                            nn,
                            f as int,
                            n as int,
                        ) ==> ((exists|i: int|
                            0 <= i < entries@.len() && entry_matches(
                                #[trigger] entries@[i],
                                ff,
                                nn,
                            )) <==> pair_declared(*config, ff, nn)),
            {
                let ghost pre = entries@;
                let declared = contains_name(&config.feeds[f].networks, &config.networks[n].name);
                if declared {
                    entries.push(
                        StoreEntry {
                            feed_index: f,
                            network_index: n,
                            state: FeedState { last_price: 0, last_confirmed_at: now },
                        },
                    );
                }
                proof {
                    lemma_extend_invariants(
                        pre,
                        entries@,
                        *config,
                        f as int,
                        n as int,
                        declared,
                        FeedState { last_price: 0, last_confirmed_at: now },
                    );
                }
            }
        }
        let ghost es = entries@;
        proof {
            assert forall|f: int, n: int|
                ((exists|i: int| 0 <= i < es.len() && entry_matches(#[trigger] es[i], f, n))
                    <==> #[trigger] pair_declared(*config, f, n)) by {
                if exists|i: int| 0 <= i < es.len() && entry_matches(#[trigger] es[i], f, n) {
                    let i = choose|i: int|
                        0 <= i < es.len() && entry_matches(#[trigger] es[i], f, n);
                    assert(lex_before(es[i], feed_count as int, 0));
                    assert(0 <= f && 0 <= n < config.networks@.len());
                    assert(lex_pair_before(f, n, feed_count as int, 0));
                }
                if pair_declared(*config, f, n) {
                    assert(0 <= f < config.feeds@.len());
                    assert(0 <= n < config.networks@.len());
                    assert(lex_pair_before(f, n, feed_count as int, 0));
                }
            }
        }
        let store = FeedStateStore { entries };
        proof {
            assert(store@ == es);
            assert forall|f: int, n: int| #[trigger]
                store.has_pair(f, n) <==> pair_declared(*config, f, n) by {
                if store.has_pair(f, n) {
                    let i = choose|i: int|
                        0 <= i < store@.len() && entry_matches(#[trigger] store@[i], f, n);
                    assert(entry_matches(es[i], f, n));
                }
                if pair_declared(*config, f, n) {
                    let i = choose|i: int|
                        0 <= i < es.len() && entry_matches(#[trigger] es[i], f, n);
                    assert(entry_matches(store@[i], f, n));
                }
            }
        }
        store
    }

    /// Look the pair up; a pair that was never declared is a configuration
    /// error.
    pub fn get(&self, feed_index: usize, network_index: usize) -> (r: Result<
        FeedState,
        OracleError,
    >)
        requires
            self.wf(),
        ensures
            match r {
                Ok(s) => self.has_pair(feed_index as int, network_index as int) && s
                    == self.state_of(feed_index as int, network_index as int),
                Err(e) => e == OracleError::Configuration && !self.has_pair(
                    feed_index as int,
                    network_index as int,
                ),
            },
    {
        for i in 0..self.entries.len()
            invariant
                forall|k: int|
                    0 <= k < i ==> !entry_matches(
                        #[trigger] self@[k],
                        feed_index as int,
                        network_index as int,
                    ),
                self.wf(),
        {
            let e = &self.entries[i];
            if e.feed_index == feed_index && e.network_index == network_index {
                proof {
                    self.lemma_match_is_unique(feed_index as int, network_index as int, i as int);
                }
                return Ok(e.state);
            }
        }
        Err(OracleError::Configuration)
    }

    /// Overwrite the state of a declared pair, leaving every other pair's
    /// record untouched; a pair that was never declared is a configuration
    /// error and nothing changes.
    pub fn set(
        &mut self,
        feed_index: usize,
        network_index: usize,
        last_price: u64,
        last_confirmed_at: u64,
    ) -> (r: Result<(), OracleError>)
        requires
            old(self).wf(),
        ensures
            final (self).wf(),
            match r {
                Ok(()) => old(self).has_pair(feed_index as int, network_index as int)
                    && final (self)@ =~= spec_set(
                    old(self)@,
                    feed_index as int,
                    network_index as int,
                    FeedState { last_price, last_confirmed_at },
                ),
                Err(e) => e == OracleError::Configuration && !old(self).has_pair(
                    feed_index as int,
                    network_index as int,
                ) && final (self)@ == old(self)@,
            },
    {
        let count = self.entries.len();
        for i in 0..count
            invariant
                count == self.entries@.len(),
                self.wf(),
                self@ == old(self)@,
                forall|k: int|
                    0 <= k < i ==> !entry_matches(
                        #[trigger] self@[k],
                        feed_index as int,
                        network_index as int,
                    ),
        {
            let found = {
                let e = &self.entries[i];
                e.feed_index == feed_index && e.network_index == network_index
            };
            if found {
                let ghost pre = self@;
                self.entries[i] = StoreEntry {
                    feed_index,
                    network_index,
                    state: FeedState { last_price, last_confirmed_at },
                };
                proof {
                    let f = feed_index as int;
                    let nn = network_index as int;
                    let st = FeedState { last_price, last_confirmed_at };
                    assert(entry_matches(pre[i as int], f, nn));
                    assert(self@ == pre.update(i as int, StoreEntry {
                        feed_index,
                        network_index,
                        state: st,
                    }));
                    assert forall|k: int| 0 <= k < pre.len() implies self@[k] == spec_set(
                        pre,
                        f,
                        nn,
                        st,
                    )[k] by {
                        if k != i as int {
                            if (i as int) < k {
                                assert(!(pre[i as int].feed_index == pre[k].feed_index
                                    && pre[i as int].network_index == pre[k].network_index));
                            }
                            assert(!entry_matches(pre[k], f, nn));
                        }
                    }
                    assert(self@ =~= spec_set(pre, f, nn, st));
                    assert forall|a: int, b: int| 0 <= a < b < self@.len() implies !((
                    #[trigger] self@[a]).feed_index == (#[trigger] self@[b]).feed_index
                        && self@[a].network_index == self@[b].network_index) by {
                        assert(!(pre[a].feed_index == pre[b].feed_index && pre[a].network_index
                            == pre[b].network_index));
                        assert(self@[a].feed_index == pre[a].feed_index && self@[a].network_index
                            == pre[a].network_index);
                        assert(self@[b].feed_index == pre[b].feed_index && self@[b].network_index
                            == pre[b].network_index);
                    }
                }
                return Ok(());
            }
        }
        Err(OracleError::Configuration)
    }
}

/// Pushing the next pair in lexicographic order keeps the store invariants:
/// distinctness, the order bound, the sentinel states, and coverage of all
/// pairs handled so far.
proof fn lemma_extend_invariants(
    pre: Seq<StoreEntry>,
    post: Seq<StoreEntry>,
    config: Config,
    f: int,
    n: int,
    declared: bool,
    sentinel: FeedState,
)
    requires
        0 <= f < config.feeds.len(),
        0 <= n < config.networks.len(),
        pairwise_distinct(pre),
        forall|i: int|
            0 <= i < pre.len() ==> lex_before(#[trigger] pre[i], f, n) && pre[i].network_index
                < config.networks.len() && pre[i].state == sentinel,
        forall|ff: int, nn: int|
            0 <= ff && 0 <= nn < config.networks.len() && lex_pair_before(ff, nn, f, n) ==> ((exists|
                i: int,
            |
                0 <= i < pre.len() && entry_matches(#[trigger] pre[i], ff, nn)) <==> pair_declared(
                config,
                ff,
                nn,
            )),
        declared == pair_declared(config, f, n),
        declared ==> post == pre.push(
            StoreEntry {
                feed_index: f as usize,
                network_index: n as usize,
                state: sentinel,
            },
        ),
        !declared ==> post == pre,
    ensures
        pairwise_distinct(post),
        forall|i: int|
            0 <= i < post.len() ==> lex_before(#[trigger] post[i], f, n + 1)
                && post[i].network_index < config.networks.len() && post[i].state == sentinel,
        forall|ff: int, nn: int|
            0 <= ff && 0 <= nn < config.networks.len() && lex_pair_before(ff, nn, f, n + 1) ==> ((
            exists|i: int| 0 <= i < post.len() && entry_matches(#[trigger] post[i], ff, nn)) <==> pair_declared(
                config,
                ff,
                nn,
            )),
{
    if declared {
        assert forall|i: int, j: int| 0 <= i < j < post.len() implies !((
        #[trigger] post[i]).feed_index == (#[trigger] post[j]).feed_index && post[i].network_index
            == post[j].network_index) by {
            if j == pre.len() as int {
                assert(lex_before(pre[i], f, n));
            }
        }
    }
    assert forall|ff: int, nn: int|
        0 <= ff && 0 <= nn < config.networks.len() && lex_pair_before(ff, nn, f, n + 1) implies ((
    exists|i: int| 0 <= i < post.len() && entry_matches(#[trigger] post[i], ff, nn)) <==> pair_declared(
        config,
        ff,
        nn,
    )) by {
        if ff == f && nn == n {
            if declared {
                assert(entry_matches(post[pre.len() as int], ff, nn));
            } else {
                assert forall|i: int| 0 <= i < post.len() implies !entry_matches(
                    #[trigger] post[i],
                    ff,
                    nn,
                ) by {
                    assert(lex_before(pre[i], f, n));
                }
            }
        } else {
            assert(lex_pair_before(ff, nn, f, n));
            if exists|i: int| 0 <= i < post.len() && entry_matches(#[trigger] post[i], ff, nn) {
                let i = choose|i: int|
                    0 <= i < post.len() && entry_matches(#[trigger] post[i], ff, nn);
                if declared && i == pre.len() as int {
                    assert(false);
                } else {
                    assert(entry_matches(pre[i], ff, nn));
                }
            } else {
                if pair_declared(config, ff, nn) {
                    let i = choose|i: int|
                        0 <= i < pre.len() && entry_matches(#[trigger] pre[i], ff, nn);
                    assert(entry_matches(post[i], ff, nn));
                }
            }
        }
    }
}

/// Whether one of the names is the target, character for character.
pub fn contains_name(names: &Vec<String>, target: &String) -> (r: bool)
    ensures
        r == exists|k: int| 0 <= k < names@.len() && #[trigger] names@[k]@ == target@,
{
    for i in 0..names.len()
        invariant
            forall|k: int| 0 <= k < i ==> #[trigger] names@[k]@ != target@,
    {
        if names[i] == *target {
            return true;
        }
    }
    false
}

/// Law: overwriting one pair is isolated — every entry of a different
/// network (and every entry of a different feed) reads back unchanged, and
/// no pair is created or destroyed, so a failure or success on one network
/// can never corrupt another network's state.
pub proof fn lemma_set_isolated(entries: Seq<StoreEntry>, f: int, n: int, st: FeedState)
    ensures
        spec_set(entries, f, n, st).len() == entries.len(),
        forall|k: int|
            0 <= k < entries.len() ==> (#[trigger] spec_set(entries, f, n, st)[k]).feed_index
                == entries[k].feed_index && spec_set(entries, f, n, st)[k].network_index
                == entries[k].network_index,
        forall|k: int|
            0 <= k < entries.len() && (#[trigger] entries[k]).network_index != n ==> spec_set(
                entries,
                f,
                n,
                st,
            )[k] == entries[k],
        forall|k: int|
            0 <= k < entries.len() && (#[trigger] entries[k]).feed_index != f ==> spec_set(
                entries,
                f,
                n,
                st,
            )[k] == entries[k],
{
}

} // verus!
