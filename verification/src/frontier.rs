//! The crawl frontier: the store of domains, sharded URL sets and redirects,
//! and the operations a crawler drives it with.

use vstd::prelude::*;

use vstd::seq_lib::seq_to_set_is_finite;
use vstd::set_lib::lemma_int_range;
use vstd::set_lib::lemma_subset_equality;
use vstd::set_lib::set_int_range;

use crate::model::all_redirects;
use crate::model::apply_batch;
use crate::model::apply_redirects;
use crate::model::apply_seeds;
use crate::model::batch_for;
use crate::model::insert_one;
use crate::model::lemma_select_batch_nonempty;
use crate::model::pad_to;
use crate::model::response_redirects;
use crate::model::seed_one;
use crate::model::select_batch;
use crate::model::stream_of;
use crate::model::urls_stream;
use crate::states::JobResponse;
use crate::states::UrlResponse;
use crate::states::bump_weight;
use crate::states::max_weight;
use crate::sampler::picks_from;
use crate::sampler::weighted_sample;
use crate::states::DomainShard;
use crate::states::DomainState;
use crate::states::DomainStatus;
use crate::sampler::random_shard_id;
use crate::states::Job;
use crate::states::UrlState;
use crate::states::UrlStatus;
use crate::stores::DomainStateDb;
use crate::stores::RedirectDb;
use crate::stores::UrlStateDb;
use crate::stores::padded_update;
use crate::stores::shards_view;
use crate::strmap::StrMap;
use crate::urls::Domain;
use crate::urls::UrlString;
use crate::urls::domain_of;

verus! {

/// A duplicate-free sequence of `n` values drawn from `[0, n)` hits every
/// value of the range.
proof fn lemma_distinct_full_range(src: Seq<int>, n: int)
    requires
        src.no_duplicates(),
        src.len() == n,
        forall|i: int| 0 <= i < src.len() ==> 0 <= #[trigger] src[i] < n,
    ensures
        forall|j: int| 0 <= j < n ==> src.contains(j),
{
    broadcast use seq_to_set_is_finite;

    src.unique_seq_to_set();
    lemma_int_range(0, n);
    assert(src.to_set().subset_of(set_int_range(0, n)));
    lemma_subset_equality(src.to_set(), set_int_range(0, n));
    assert forall|j: int| 0 <= j < n implies src.contains(j) by {
        assert(set_int_range(0, n).contains(j));
        assert(src.to_set().contains(j));
    }
}

/// The frontier: per-domain scheduling state, per-domain sharded URL sets,
/// and the redirect map.
pub struct CrawlDb {
    pub domain_state: DomainStateDb,
    pub urls: UrlStateDb,
    pub redirects: RedirectDb,
}

impl CrawlDb {
    /// Every domain with shards is known to the domain store, the accepting
    /// shard id points into the domain's shards, and a domain without shards
    /// accepts into shard 0.
    pub open spec fn inv(self) -> bool {
        &&& forall|d: Seq<char>|
            #[trigger] self.urls@.contains_key(d) ==> self.domain_state@.contains_key(d)
        &&& forall|d: Seq<char>|
            #[trigger] self.domain_state@.contains_key(d) ==> if self.urls@.contains_key(d) {
                self.domain_state@[d].max_shard_id + 1 <= self.urls@[d].len()
            } else {
                self.domain_state@[d].max_shard_id == 0
            }
    }

    /// No shard id exceeds its domain's `max_shard_id`.  Every operation
    /// keeps this bound; re-seeding a domain whose shards had rolled over
    /// resets `max_shard_id` and is the one way to leave stale shards above
    /// it.
    pub open spec fn shards_bounded(self) -> bool {
        forall|d: Seq<char>|
            #[trigger] self.urls@.contains_key(d) ==> self.urls@[d].len()
                <= self.domain_state@[d].max_shard_id + 1
    }

    /// A fresh, empty frontier.
    pub fn open() -> (db: CrawlDb)
        ensures
            db.inv(),
            db.shards_bounded(),
            db.domain_state@ == Map::<Seq<char>, DomainState>::empty(),
            db.urls@ == Map::<Seq<char>, Seq<Map<Seq<char>, UrlState>>>::empty(),
            db.redirects@ == Map::<Seq<char>, Seq<char>>::empty(),
    {
        CrawlDb {
            domain_state: DomainStateDb::open(),
            urls: UrlStateDb::open(),
            redirects: RedirectDb::open(),
        }
    }

    /// Set a domain's politeness status, creating an otherwise fresh row for
    /// an unknown domain.
    pub fn set_domain_status(&mut self, domain: &Domain, status: DomainStatus)
        requires
            old(self).inv(),
        ensures
            final(self).inv(),
            old(self).shards_bounded() ==> final(self).shards_bounded(),
            final(self).domain_state@ == old(self).domain_state@.insert(
                domain@,
                DomainState {
                    weight: if old(self).domain_state@.contains_key(domain@) {
                        old(self).domain_state@[domain@].weight
                    } else {
                        0
                    },
                    status,
                    max_shard_id: if old(self).domain_state@.contains_key(domain@) {
                        old(self).domain_state@[domain@].max_shard_id
                    } else {
                        0
                    },
                },
            ),
            final(self).urls@ == old(self).urls@,
            final(self).redirects@ == old(self).redirects@,
    {
        let mut state = match self.domain_state.get(domain) {
            Some(st) => st,
            None => DomainState { weight: 0, status, max_shard_id: 0 },
        };
        state.status = status;
        self.domain_state.put(domain, state);
    }

    /// Seed URLs into the frontier.  Each seed overwrites its domain's state
    /// with a fresh pending one and joins shard 0 as a fresh pending URL;
    /// seeding is authoritative and idempotent.
    pub fn insert_seed_urls(&mut self, urls: &Vec<UrlString>)
        requires
            old(self).inv(),
        ensures
            final(self).inv(),
            ({
                let r = apply_seeds(
                    old(self).domain_state@,
                    old(self).urls@,
                    urls@.map_values(|u: UrlString| u@),
                );
                final(self).domain_state@ == r.0 && final(self).urls@ == r.1
            }),
            final(self).redirects@ == old(self).redirects@,
            old(self).shards_bounded() && (forall|i: int|
                0 <= i < urls@.len() ==> (!old(self).urls@.contains_key(
                    domain_of(#[trigger] urls@[i]@),
                ) || old(self).urls@[domain_of(urls@[i]@)].len() <= 1)) ==> final(self).shards_bounded(),
    {
        let ghost views = urls@.map_values(|u: UrlString| u@);
        let ghost fresh_hyp = old(self).shards_bounded() && (forall|i: int|
            0 <= i < urls@.len() ==> (!old(self).urls@.contains_key(
                domain_of(#[trigger] urls@[i]@),
            ) || old(self).urls@[domain_of(urls@[i]@)].len() <= 1));
        let n = urls.len();
        let mut i: usize = 0;
        while i < n
            invariant
                old(self).inv(),
                self.inv(),
                n == urls@.len(),
                0 <= i <= n,
                views == urls@.map_values(|u: UrlString| u@),
                fresh_hyp == (old(self).shards_bounded() && (forall|j: int|
                    0 <= j < urls@.len() ==> (!old(self).urls@.contains_key(
                        domain_of(#[trigger] urls@[j]@),
                    ) || old(self).urls@[domain_of(urls@[j]@)].len() <= 1))),
                ({
                    let r = apply_seeds(
                        old(self).domain_state@,
                        old(self).urls@,
                        views.take(i as int),
                    );
                    self.domain_state@ == r.0 && self.urls@ == r.1
                }),
                self.redirects@ == old(self).redirects@,
                fresh_hyp ==> self.shards_bounded(),
                fresh_hyp ==> (forall|d: Seq<char>|
                    #[trigger] self.urls@.contains_key(d) ==> (old(self).urls@.contains_key(d)
                        && self.urls@[d] == old(self).urls@[d]) || self.urls@[d].len() == 1),
            decreases n - i,
        {
            let ghost pre = *self;
            let dom = Domain::from_url(&urls[i]);
            self.domain_state.put(&dom, DomainState::fresh());
            let key = DomainShard { domain: dom, shard_id: 0 };
            let mut shard: StrMap<UrlState> = match self.urls.get(&key) {
                Some(m) => m.duplicate(),
                None => StrMap::new(),
            };
            shard.insert(urls[i].0.clone(), UrlState::fresh());
            self.urls.put(&key, shard);
            proof {
                let u = views[i as int];
                let r0 = apply_seeds(
                    old(self).domain_state@,
                    old(self).urls@,
                    views.take(i as int),
                );
                let r1 = seed_one(r0.0, r0.1, u);
                assert(views.take(i + 1).drop_last() =~= views.take(i as int));
                assert(views.take(i + 1).last() == u);
                let shards0 = if pre.urls@.contains_key(domain_of(u)) && pre.urls@[domain_of(
                    u,
                )].len() >= 1 {
                    pre.urls@[domain_of(u)]
                } else {
                    seq![Map::<Seq<char>, UrlState>::empty()]
                };
                let old_sv = if pre.urls@.contains_key(domain_of(u)) {
                    pre.urls@[domain_of(u)]
                } else {
                    Seq::empty()
                };
                assert(padded_update(old_sv, 0, shard@) =~= shards0.update(0, shards0[0].insert(
                    u,
                    crate::model::fresh_url_state(),
                )));
                assert(self.domain_state@ == r1.0);
                assert(self.urls@ =~= r1.1);
            }
            i = i + 1;
        }
        proof {
            assert(views.take(n as int) =~= views);
        }
    }

    /// Sample up to `num_jobs` pending domains, weighted by their weights,
    /// and mark each sampled domain as being crawled.  No domain already
    /// being crawled is returned, no domain twice; a sample shorter than
    /// asked for exhausted the pending domains.
    pub fn sample_domains(&mut self, num_jobs: usize) -> (r: Vec<Domain>)
        requires
            old(self).inv(),
        ensures
            final(self).inv(),
            old(self).shards_bounded() ==> final(self).shards_bounded(),
            forall|i: int, j: int| 0 <= i < j < r@.len() ==> r@[i]@ != r@[j]@,
            forall|i: int|
                0 <= i < r@.len() ==> old(self).domain_state@.contains_key(#[trigger] r@[i]@)
                    && old(self).domain_state@[r@[i]@].status is Pending
                    && final(self).domain_state@.contains_key(r@[i]@)
                    && final(self).domain_state@[r@[i]@] == (DomainState {
                    weight: old(self).domain_state@[r@[i]@].weight,
                    status: DomainStatus::CrawlInProgress,
                    max_shard_id: old(self).domain_state@[r@[i]@].max_shard_id,
                }),
            forall|k: Seq<char>|
                #![trigger final(self).domain_state@.contains_key(k)]
                (forall|i: int| 0 <= i < r@.len() ==> #[trigger] r@[i]@ != k) ==> ((final(self).domain_state@.contains_key(k) <==> old(self).domain_state@.contains_key(k)) && (
                old(self).domain_state@.contains_key(k) ==> final(self).domain_state@[k] == old(self).domain_state@[k])),
            final(self).urls@ == old(self).urls@,
            final(self).redirects@ == old(self).redirects@,
            r@.len() <= num_jobs,
            r@.len() < num_jobs ==> (forall|k: Seq<char>|
                #[trigger] old(self).domain_state@.contains_key(k) && old(self).domain_state@[k].status is Pending ==> exists|i: int|
                    0 <= i < r@.len() && r@[i]@ == k),
    {
        let all = self.domain_state.iter();
        proof {
            assert forall|a: int|
                #![trigger all@[a]]
                0 <= a < all@.len() implies self.domain_state@.contains_key(all@[a].0@)
                    && self.domain_state@[all@[a].0@] == all@[a].1 by {
                assert(self.domain_state@.contains_key(all@[a].0@));
                assert(self.domain_state@[all@[a].0@] == all@[a].1);
            }
        }
        let mut pending: Vec<(Domain, u64)> = Vec::new();
        let n = all.len();
        let mut i: usize = 0;
        while i < n
            invariant
                n == all@.len(),
                0 <= i <= n,
                forall|a: int, b: int| 0 <= a < b < all@.len() ==> all@[a].0@ != all@[b].0@,
                forall|a: int|
                    #![trigger all@[a]]
                    0 <= a < all@.len() ==> self.domain_state@.contains_key(all@[a].0@),
                forall|a: int|
                    #![trigger all@[a]]
                    0 <= a < all@.len() ==> self.domain_state@[all@[a].0@] == all@[a].1,
                forall|k: Seq<char>|
                    #[trigger] self.domain_state@.contains_key(k) ==> exists|a: int|
                        0 <= a < all@.len() && all@[a].0@ == k,
                forall|a: int, b: int|
                    0 <= a < b < pending@.len() ==> pending@[a].0@ != pending@[b].0@,
                forall|a: int|
                    #![trigger pending@[a]]
                    0 <= a < pending@.len() ==> self.domain_state@.contains_key(pending@[a].0@),
                forall|a: int|
                    #![trigger pending@[a]]
                    0 <= a < pending@.len() ==> self.domain_state@[pending@[a].0@].status
                        is Pending,
                forall|a: int|
                    #![trigger all@[a]]
                    0 <= a < i ==> (all@[a].1.status is Pending ==> exists|b: int|
                        0 <= b < pending@.len() && #[trigger] pending@[b].0@ == all@[a].0@),
                forall|a: int, b: int|
                    0 <= a < pending@.len() && 0 <= b < all@.len() && pending@[a].0@ == all@[b].0@
                        ==> b < i,
            decreases n - i,
        {
            let ghost pend0 = pending@;
            if matches!(all[i].1.status, DomainStatus::Pending) {
                pending.push((all[i].0.duplicate(), all[i].1.weight));
            }
            proof {
                assert forall|a: int|
                    #![trigger all@[a]]
                    0 <= a < i + 1 implies (all@[a].1.status is Pending ==> exists|b: int|
                    0 <= b < pending@.len() && #[trigger] pending@[b].0@ == all@[a].0@) by {
                    if all@[a].1.status is Pending {
                        if a < i {
                            let b = choose|b: int|
                                0 <= b < pend0.len() && #[trigger] pend0[b].0@ == all@[a].0@;
                            assert(pending@[b] == pend0[b]);
                            assert(pending@[b].0@ == all@[a].0@);
                        } else {
                            assert(pending@[pending@.len() - 1].0@ == all@[i as int].0@);
                        }
                    }
                }
            }
            i = i + 1;
        }
        let ghost pending0 = pending@;
        let sampled = weighted_sample(pending, num_jobs);
        proof {
            let src = choose|src: Seq<int>| picks_from(sampled@, pending0, src);
            assert forall|a: int, b: int| 0 <= a < b < sampled@.len() implies sampled@[a]@
                != sampled@[b]@ by {
                assert(sampled@[a] == pending0[src[a]].0);
                assert(sampled@[b] == pending0[src[b]].0);
                assert(src[a] != src[b]);
            }
            assert forall|a: int| 0 <= a < sampled@.len() implies self.domain_state@.contains_key(
                #[trigger] sampled@[a]@,
            ) && self.domain_state@[sampled@[a]@].status is Pending by {
                assert(sampled@[a] == pending0[src[a]].0);
                assert(self.domain_state@.contains_key(pending0[src[a]].0@));
                assert(self.domain_state@[pending0[src[a]].0@].status is Pending);
            }
            if sampled@.len() < num_jobs {
                lemma_distinct_full_range(src, pending0.len() as int);
                assert forall|k: Seq<char>|
                    #[trigger] self.domain_state@.contains_key(k)
                        && self.domain_state@[k].status is Pending implies exists|a: int|
                    0 <= a < sampled@.len() && sampled@[a]@ == k by {
                    let b = choose|b: int| 0 <= b < all@.len() && all@[b].0@ == k;
                    assert(all@[b].1.status is Pending);
                    let c = choose|c: int| 0 <= c < pending0.len() && pending0[c].0@ == k;
                    assert(src.contains(c));
                    let a = choose|a: int| 0 <= a < src.len() && src[a] == c;
                    assert(sampled@[a] == pending0[c].0);
                }
            }
        }
        let m = sampled.len();
        let mut i: usize = 0;
        while i < m
            invariant
                old(self).inv(),
                m == sampled@.len(),
                0 <= i <= m,
                forall|a: int, b: int| 0 <= a < b < m ==> sampled@[a]@ != sampled@[b]@,
                forall|a: int|
                    0 <= a < m ==> old(self).domain_state@.contains_key(#[trigger] sampled@[a]@)
                        && old(self).domain_state@[sampled@[a]@].status is Pending,
                forall|a: int|
                    0 <= a < i ==> self.domain_state@.contains_key(#[trigger] sampled@[a]@)
                        && self.domain_state@[sampled@[a]@] == (DomainState {
                        weight: old(self).domain_state@[sampled@[a]@].weight,
                        status: DomainStatus::CrawlInProgress,
                        max_shard_id: old(self).domain_state@[sampled@[a]@].max_shard_id,
                    }),
                forall|k: Seq<char>|
                    #![trigger self.domain_state@.contains_key(k)]
                    (forall|a: int| 0 <= a < i ==> #[trigger] sampled@[a]@ != k) ==> ((
                    self.domain_state@.contains_key(k) <==> old(self).domain_state@.contains_key(
                        k,
                    )) && (old(self).domain_state@.contains_key(k) ==> self.domain_state@[k] == old(self).domain_state@[k])),
                self.urls@ == old(self).urls@,
                self.redirects@ == old(self).redirects@,
            decreases m - i,
        {
            let d = &sampled[i];
            proof {
                assert(forall|a: int| 0 <= a < i ==> #[trigger] sampled@[a]@ != d@);
            }
            match self.domain_state.get(d) {
                Some(st) => {
                    self.domain_state.put(
                        d,
                        DomainState {
                            weight: st.weight,
                            status: DomainStatus::CrawlInProgress,
                            max_shard_id: st.max_shard_id,
                        },
                    );
                },
                None => {
                    proof {
                        assert(false);
                    }
                },
            }
            proof {
                assert forall|k: Seq<char>|
                    (forall|a: int| 0 <= a < i + 1 ==> #[trigger] sampled@[a]@ != k) implies ((
                self.domain_state@.contains_key(k) <==> old(self).domain_state@.contains_key(k))
                    && (old(self).domain_state@.contains_key(k) ==> self.domain_state@[k] == old(self).domain_state@[k])) by {
                    assert(sampled@[i as int]@ != k);
                }
            }
            i = i + 1;
        }
        proof {
            assert forall|d: Seq<char>|
                #[trigger] self.domain_state@.contains_key(d) implies if self.urls@.contains_key(
                d,
            ) {
                self.domain_state@[d].max_shard_id + 1 <= self.urls@[d].len()
            } else {
                self.domain_state@[d].max_shard_id == 0
            } by {
                if forall|a: int| 0 <= a < m ==> #[trigger] sampled@[a]@ != d {
                } else {
                    let a = choose|a: int| 0 <= a < m && #[trigger] sampled@[a]@ == d;
                }
            }
        }
        sampled
    }

    /// Fold a batch of job responses into the frontier: every reported
    /// redirect is recorded in order, and each discovered URL joins its
    /// target domain's accepting shard, rolling the shard over when full; a
    /// cross-domain link raises the URL's weight by one, and the domain
    /// weight tracks the maximum URL weight it saw.
    pub fn insert_urls(&mut self, responses: &Vec<JobResponse>)
        requires
            old(self).inv(),
        ensures
            final(self).inv(),
            old(self).shards_bounded() ==> final(self).shards_bounded(),
            final(self).redirects@ == apply_redirects(
                old(self).redirects@,
                all_redirects(responses@),
            ),
            forall|dom: Seq<char>|
                #![trigger batch_for(responses@, dom)]
                batch_for(responses@, dom).len() == 0 ==> ((final(self).domain_state@.contains_key(
                    dom,
                ) <==> old(self).domain_state@.contains_key(dom)) && (old(self).domain_state@.contains_key(dom) ==> final(self).domain_state@[dom] == old(self).domain_state@[dom]) && (final(self).urls@.contains_key(dom) <==> old(self).urls@.contains_key(dom)) && (old(self).urls@.contains_key(dom) ==> final(self).urls@[dom] == old(self).urls@[dom])),
            forall|dom: Seq<char>|
                #![trigger batch_for(responses@, dom)]
                batch_for(responses@, dom).len() > 0 ==> ({
                    let r = apply_batch(
                        start_state(old(self).domain_state@, dom),
                        start_shards(old(self).domain_state@, old(self).urls@, dom),
                        batch_for(responses@, dom),
                    );
                    &&& final(self).domain_state@.contains_key(dom)
                    &&& final(self).domain_state@[dom] == r.0
                    &&& final(self).urls@.contains_key(dom)
                    &&& final(self).urls@[dom] == r.1
                }),
    {
        self.record_redirects(responses);
        let stream = flatten_responses(responses);
        let (doms, sidx_g, widx_g) = distinct_targets(&stream);
        let ghost sidx = sidx_g@;
        let ghost widx = widx_g@;
        let ghost base_d = self.domain_state@;
        let ghost base_u = self.urls@;
        let ghost red_final = self.redirects@;
        let nd = doms.len();
        let mut di: usize = 0;
        while di < nd
            invariant
                old(self).inv(),
                self.inv(),
                nd == doms@.len(),
                0 <= di <= nd,
                base_d == old(self).domain_state@,
                base_u == old(self).urls@,
                stream_view(stream@) == stream_of(responses@),
                self.redirects@ == red_final,
                forall|a: int, b: int| 0 <= a < b < doms@.len() ==> doms@[a]@ != doms@[b]@,
                sidx.len() == doms@.len(),
                forall|a: int|
                    0 <= a < doms@.len() ==> 0 <= #[trigger] sidx[a] < stream@.len()
                        && stream@[sidx[a]].1@ == doms@[a]@,
                widx.len() == stream@.len(),
                forall|sp: int|
                    0 <= sp < stream@.len() ==> 0 <= #[trigger] widx[sp] < doms@.len()
                        && doms@[widx[sp]]@ == stream@[sp].1@,
                old(self).shards_bounded() ==> self.shards_bounded(),
                forall|a: int|
                    #![trigger doms@[a]]
                    0 <= a < di ==> ({
                        let dom = doms@[a]@;
                        let r = apply_batch(
                            start_state(base_d, dom),
                            start_shards(base_d, base_u, dom),
                            batch_for(responses@, dom),
                        );
                        &&& self.domain_state@.contains_key(dom)
                        &&& self.domain_state@[dom] == r.0
                        &&& self.urls@.contains_key(dom)
                        &&& self.urls@[dom] == r.1
                    }),
                forall|k: Seq<char>|
                    #![trigger self.domain_state@.contains_key(k)]
                    #![trigger self.urls@.contains_key(k)]
                    (forall|a: int| 0 <= a < di ==> #[trigger] doms@[a]@ != k) ==> ((
                    self.domain_state@.contains_key(k) <==> base_d.contains_key(k)) && (
                    base_d.contains_key(k) ==> self.domain_state@[k] == base_d[k]) && (
                    self.urls@.contains_key(k) <==> base_u.contains_key(k)) && (
                    base_u.contains_key(k) ==> self.urls@[k] == base_u[k])),
            decreases nd - di,
        {
            let dom = &doms[di];
            proof {
                assert(forall|a: int| 0 <= a < di ==> #[trigger] doms@[a]@ != dom@);
            }
            let batch = collect_batch(&stream, dom);
            let ghost pre = *self;
            self.apply_domain_batch(dom, batch);
            proof {
                assert forall|k: Seq<char>|
                    (forall|a: int| 0 <= a < di + 1 ==> #[trigger] doms@[a]@ != k) implies ((
                self.domain_state@.contains_key(k) <==> base_d.contains_key(k)) && (
                base_d.contains_key(k) ==> self.domain_state@[k] == base_d[k]) && (
                self.urls@.contains_key(k) <==> base_u.contains_key(k)) && (base_u.contains_key(k)
                    ==> self.urls@[k] == base_u[k])) by {
                    assert(doms@[di as int]@ != k);
                }
                assert forall|a: int| #![trigger doms@[a]] 0 <= a < di + 1 implies ({
                    let dm = doms@[a]@;
                    let r = apply_batch(
                        start_state(base_d, dm),
                        start_shards(base_d, base_u, dm),
                        batch_for(responses@, dm),
                    );
                    &&& self.domain_state@.contains_key(dm)
                    &&& self.domain_state@[dm] == r.0
                    &&& self.urls@.contains_key(dm)
                    &&& self.urls@[dm] == r.1
                }) by {
                    if a < di {
                        assert(doms@[a]@ != doms@[di as int]@);
                    } else {
                        assert(pre.domain_state@.contains_key(doms@[a]@)
                            <==> base_d.contains_key(doms@[a]@));
                    }
                }
            }
            di = di + 1;
        }
        proof {
            assert forall|dom: Seq<char>|
                #![trigger batch_for(responses@, dom)]
                batch_for(responses@, dom).len() == 0 implies ((self.domain_state@.contains_key(
                dom,
            ) <==> base_d.contains_key(dom)) && (base_d.contains_key(dom)
                ==> self.domain_state@[dom] == base_d[dom]) && (self.urls@.contains_key(dom)
                <==> base_u.contains_key(dom)) && (base_u.contains_key(dom) ==> self.urls@[dom]
                == base_u[dom])) by {
                lemma_select_batch_nonempty(stream_view(stream@), dom);
                assert forall|a: int| 0 <= a < doms@.len() implies #[trigger] doms@[a]@ != dom by {
                    assert(stream_view(stream@)[sidx[a]].1 == doms@[a]@);
                }
            }
            assert forall|dom: Seq<char>|
                #![trigger batch_for(responses@, dom)]
                batch_for(responses@, dom).len() > 0 implies ({
                let r = apply_batch(
                    start_state(base_d, dom),
                    start_shards(base_d, base_u, dom),
                    batch_for(responses@, dom),
                );
                &&& self.domain_state@.contains_key(dom)
                &&& self.domain_state@[dom] == r.0
                &&& self.urls@.contains_key(dom)
                &&& self.urls@[dom] == r.1
            }) by {
                lemma_select_batch_nonempty(stream_view(stream@), dom);
                let sp = choose|sp: int|
                    0 <= sp < stream_view(stream@).len() && stream_view(stream@)[sp].1 == dom;
                assert(stream_view(stream@)[sp].1 == stream@[sp].1@);
                assert(doms@[widx[sp]]@ == dom);
            }
        }
    }

    /// Record every redirect a batch of responses reports, in order.
    fn record_redirects(&mut self, responses: &Vec<JobResponse>)
        requires
            old(self).inv(),
        ensures
            final(self).inv(),
            final(self).domain_state@ == old(self).domain_state@,
            final(self).urls@ == old(self).urls@,
            final(self).redirects@ == apply_redirects(
                old(self).redirects@,
                all_redirects(responses@),
            ),
    {
        let nr = responses.len();
        let mut i: usize = 0;
        while i < nr
            invariant
                nr == responses@.len(),
                0 <= i <= nr,
                self.domain_state@ == old(self).domain_state@,
                self.urls@ == old(self).urls@,
                self.redirects@ == apply_redirects(
                    old(self).redirects@,
                    all_redirects(responses@.take(i as int)),
                ),
            decreases nr - i,
        {
            let resp = &responses[i];
            let nu = resp.url_responses.len();
            let mut j: usize = 0;
            while j < nu
                invariant
                    nr == responses@.len(),
                    0 <= i < nr,
                    resp == &responses@[i as int],
                    nu == responses@[i as int].url_responses@.len(),
                    0 <= j <= nu,
                    self.domain_state@ == old(self).domain_state@,
                    self.urls@ == old(self).urls@,
                    self.redirects@ == apply_redirects(
                        old(self).redirects@,
                        all_redirects(responses@.take(i as int)) + response_redirects(
                            responses@[i as int].url_responses@.take(j as int),
                        ),
                    ),
                decreases nu - j,
            {
                let ghost rs = responses@[i as int].url_responses@;
                let ghost pre_seq = all_redirects(responses@.take(i as int)) + response_redirects(
                    rs.take(j as int),
                );
                match &resp.url_responses[j] {
                    UrlResponse::Redirected { url, new_url } => {
                        self.redirects.put(url, new_url);
                        proof {
                            assert(rs.take(j + 1).drop_last() =~= rs.take(j as int));
                            assert(rs.take(j + 1).last() == rs[j as int]);
                            assert(response_redirects(rs.take(j + 1)) =~= response_redirects(
                                rs.take(j as int),
                            ).push((url@, new_url@)));
                            let s2 = all_redirects(responses@.take(i as int)) + response_redirects(
                                rs.take(j + 1),
                            );
                            assert(s2 =~= pre_seq.push((url@, new_url@)));
                            assert(s2.drop_last() =~= pre_seq);
                        }
                    },
                    _ => {
                        proof {
                            assert(rs.take(j + 1).drop_last() =~= rs.take(j as int));
                            assert(rs.take(j + 1).last() == rs[j as int]);
                            assert(response_redirects(rs.take(j + 1)) =~= response_redirects(
                                rs.take(j as int),
                            ));
                        }
                    },
                }
                j = j + 1;
            }
            proof {
                assert(responses@.take(i + 1).drop_last() =~= responses@.take(i as int));
                assert(responses@.take(i + 1).last() == responses@[i as int]);
                assert(responses@[i as int].url_responses@.take(nu as int)
                    =~= responses@[i as int].url_responses@);
            }
            i = i + 1;
        }
        proof {
            assert(responses@.take(nr as int) =~= responses@);
        }
    }

    /// Fold one domain's batch of discovered URLs into its state and shards.
    fn apply_domain_batch(&mut self, dom: &Domain, batch: Vec<(UrlString, bool)>)
        requires
            old(self).inv(),
        ensures
            final(self).inv(),
            old(self).shards_bounded() ==> final(self).shards_bounded(),
            final(self).redirects@ == old(self).redirects@,
            ({
                let r = apply_batch(
                    start_state(old(self).domain_state@, dom@),
                    start_shards(old(self).domain_state@, old(self).urls@, dom@),
                    batch_view(batch@),
                );
                final(self).domain_state@ == old(self).domain_state@.insert(dom@, r.0) && final(self).urls@ == old(self).urls@.insert(dom@, r.1)
            }),
    {
        let ghost st0g = start_state(old(self).domain_state@, dom@);
        let ghost sh0g = start_shards(old(self).domain_state@, old(self).urls@, dom@);
        let mut st: DomainState = match self.domain_state.get(dom) {
            Some(st) => st,
            None => DomainState::fresh(),
        };
        let mut v: Vec<StrMap<UrlState>> = match self.urls.get_shards(dom) {
            Some(x) => UrlStateDb::duplicate_shards(x),
            None => Vec::new(),
        };
        let ghost orig_sv = shards_view(v@);
        let _len_bound = v.len();
        proof {
            if self.urls@.contains_key(dom@) {
                assert(st.max_shard_id + 1 <= v@.len());
            } else {
                assert(st.max_shard_id == 0);
            }
        }
        let mi = st.max_shard_id as usize;
        proof {
            assert(shards_view(v@) =~= pad_to(orig_sv, v@.len() as int));
        }
        while v.len() <= mi
            invariant
                mi < usize::MAX,
                orig_sv.len() <= v@.len(),
                v@.len() <= mi + 1 || v@.len() == orig_sv.len(),
                shards_view(v@) =~= pad_to(orig_sv, v@.len() as int),
            decreases mi + 1 - v@.len(),
        {
            let ghost v0 = v@;
            v.push(StrMap::new());
            proof {
                assert(shards_view(v@) =~= shards_view(v0).push(Map::empty()));
                assert(shards_view(v@) =~= pad_to(orig_sv, v@.len() as int));
            }
        }
        proof {
            assert(shards_view(v@) =~= sh0g);
        }
        let ghost bview0 = batch_view(batch@);
        let nb = batch.len();
        let mut j: usize = 0;
        while j < nb
            invariant
                nb == batch@.len(),
                0 <= j <= nb,
                bview0 == batch_view(batch@),
                ({
                    let r = apply_batch(st0g, sh0g, bview0.take(j as int));
                    st == r.0 && shards_view(v@) == r.1
                }),
                st.max_shard_id + 1 <= v@.len(),
                sh0g.len() == st0g.max_shard_id + 1 ==> v@.len() == st.max_shard_id + 1,
            decreases nb - j,
        {
            let ghost pre_st = st;
            let ghost pre_sh = shards_view(v@);
            let _len_bound = v.len();
            let mi2 = st.max_shard_id as usize;
            let (prev_present, prev_state): (bool, UrlState) = match v[mi2].get(&batch[j].0.0) {
                Some(p) => (true, *p),
                None => (false, UrlState::fresh()),
            };
            let full = v[mi2].len() >= crate::URLS_PER_SHARD;
            let rolled = !prev_present && full;
            if rolled {
                st.max_shard_id = st.max_shard_id + 1;
                let mi3 = st.max_shard_id as usize;
                if mi3 < v.len() {
                    let ghost vb = shards_view(v@);
                    v[mi3] = StrMap::new();
                    proof {
                        assert(shards_view(v@) =~= vb.update(
                            mi3 as int,
                            Map::<Seq<char>, UrlState>::empty(),
                        ));
                    }
                } else {
                    let ghost vb = shards_view(v@);
                    v.push(StrMap::new());
                    proof {
                        assert(shards_view(v@) =~= vb.push(Map::<Seq<char>, UrlState>::empty()));
                    }
                }
            }
            let prev2: UrlState = if rolled {
                UrlState::fresh()
            } else {
                prev_state
            };
            let w1 = if batch[j].1 {
                bump_weight(prev2.weight)
            } else {
                prev2.weight
            };
            st.weight = max_weight(st.weight, w1);
            let mi4 = st.max_shard_id as usize;
            let ghost vb2 = shards_view(v@);
            v[mi4].insert(batch[j].0.0.clone(), UrlState { weight: w1, status: prev2.status });
            proof {
                assert(shards_view(v@) =~= vb2.update(
                    mi4 as int,
                    vb2[mi4 as int].insert(
                        batch@[j as int].0@,
                        UrlState { weight: w1, status: prev2.status },
                    ),
                ));
                assert(bview0.take(j + 1).drop_last() =~= bview0.take(j as int));
                assert(bview0.take(j + 1).last() == bview0[j as int]);
                let stepped = insert_one(pre_st, pre_sh, bview0[j as int].0, bview0[j as int].1);
                assert(st == stepped.0);
                assert(shards_view(v@) =~= stepped.1);
            }
            j = j + 1;
        }
        proof {
            assert(bview0.take(nb as int) =~= bview0);
        }
        let ghost v_final = shards_view(v@);
        let ghost st_final = st;
        self.urls.set_shards(dom, v);
        self.domain_state.put(dom, st);
        proof {
            if old(self).shards_bounded() {
                assert(sh0g.len() == st0g.max_shard_id + 1);
                assert(v_final.len() == st_final.max_shard_id + 1);
                assert forall|d: Seq<char>| #[trigger] self.urls@.contains_key(d) implies
                    self.urls@[d].len() <= self.domain_state@[d].max_shard_id + 1 by {
                    if d != dom@ {
                        assert(old(self).urls@.contains_key(d));
                    }
                }
            }
        }
    }
    /// Prepare one job for each given domain: pick a shard uniformly at
    /// random, draw up to `urls_per_job` of its pending URLs weighted by
    /// their weights, mark the drawn URLs as being crawled, and recompute the
    /// domain weight as the largest weight still pending in that shard.
    pub fn prepare_jobs(&mut self, domains: &Vec<Domain>, urls_per_job: usize) -> (jobs: Vec<Job>)
        requires
            old(self).inv(),
            forall|i: int|
                0 <= i < domains@.len() ==> old(self).domain_state@.contains_key(
                    #[trigger] domains@[i]@,
                ),
            forall|i: int, j: int| 0 <= i < j < domains@.len() ==> domains@[i]@ != domains@[j]@,
        ensures
            final(self).inv(),
            old(self).shards_bounded() ==> final(self).shards_bounded(),
            final(self).redirects@ == old(self).redirects@,
            jobs@.len() == domains@.len(),
            forall|i: int|
                0 <= i < jobs@.len() ==> (#[trigger] jobs@[i]).domain@ == domains@[i]@
                    && !jobs@[i].fetch_sitemap,
            forall|k: Seq<char>|
                #![trigger final(self).domain_state@.contains_key(k)]
                #![trigger final(self).urls@.contains_key(k)]
                (forall|i: int| 0 <= i < domains@.len() ==> #[trigger] domains@[i]@ != k) ==> ((
                final(self).domain_state@.contains_key(k) <==> old(self).domain_state@.contains_key(
                    k,
                )) && (old(self).domain_state@.contains_key(k) ==> final(self).domain_state@[k]
                    == old(self).domain_state@[k]) && (final(self).urls@.contains_key(k) <==> old(self).urls@.contains_key(k)) && (old(self).urls@.contains_key(k) ==> final(self).urls@[k] == old(self).urls@[k])),
            forall|i: int|
                #![trigger domains@[i]]
                0 <= i < domains@.len() ==> some_shard_prepared(
                    old(self).domain_state@[domains@[i]@],
                    stored_shards(old(self).urls@, domains@[i]@),
                    jobs@[i],
                    urls_per_job as int,
                    final(self).domain_state@[domains@[i]@],
                    final(self).urls@[domains@[i]@],
                ),
    {
        let nd = domains.len();
        let mut jobs: Vec<Job> = Vec::new();
        let ghost mut shard_choices: Seq<int> = Seq::empty();
        let mut i: usize = 0;
        while i < nd
            invariant
                old(self).inv(),
                self.inv(),
                nd == domains@.len(),
                0 <= i <= nd,
                jobs@.len() == i,
                forall|a: int|
                    0 <= a < nd ==> old(self).domain_state@.contains_key(#[trigger] domains@[a]@),
                forall|a: int, b: int| 0 <= a < b < nd ==> domains@[a]@ != domains@[b]@,
                old(self).shards_bounded() ==> self.shards_bounded(),
                self.redirects@ == old(self).redirects@,
                forall|a: int|
                    0 <= a < i ==> (#[trigger] jobs@[a]).domain@ == domains@[a]@
                        && !jobs@[a].fetch_sitemap,
                forall|a: int|
                    0 <= a < i ==> self.domain_state@.contains_key(#[trigger] domains@[a]@)
                        && self.urls@.contains_key(domains@[a]@),
                forall|k: Seq<char>|
                    #![trigger self.domain_state@.contains_key(k)]
                    #![trigger self.urls@.contains_key(k)]
                    (forall|a: int| 0 <= a < i ==> #[trigger] domains@[a]@ != k) ==> ((
                    self.domain_state@.contains_key(k) <==> old(self).domain_state@.contains_key(
                        k,
                    )) && (old(self).domain_state@.contains_key(k) ==> self.domain_state@[k] == old(self).domain_state@[k]) && (self.urls@.contains_key(k) <==> old(self).urls@.contains_key(k)) && (old(self).urls@.contains_key(k) ==> self.urls@[k]
                        == old(self).urls@[k])),
                shard_choices.len() == i,
                forall|a: int|
                    #![trigger domains@[a]]
                    0 <= a < i ==> job_prepared(
                        old(self).domain_state@[domains@[a]@],
                        stored_shards(old(self).urls@, domains@[a]@),
                        shard_choices[a],
                        jobs@[a],
                        urls_per_job as int,
                        self.domain_state@[domains@[a]@],
                        self.urls@[domains@[a]@],
                    ),
            decreases nd - i,
        {
            let dom = &domains[i];
            proof {
                assert(forall|a: int| 0 <= a < i ==> #[trigger] domains@[a]@ != dom@);
                assert(self.domain_state@.contains_key(dom@));
            }
            let ghost pre = *self;
            let (job, s_g) = self.prepare_one(dom, urls_per_job);
            let ghost jobs0 = jobs@;
            jobs.push(job);
            proof {
                assert forall|k: Seq<char>|
                    (forall|a: int| 0 <= a < i + 1 ==> #[trigger] domains@[a]@ != k) implies ((
                self.domain_state@.contains_key(k) <==> old(self).domain_state@.contains_key(k))
                    && (old(self).domain_state@.contains_key(k) ==> self.domain_state@[k] == old(self).domain_state@[k]) && (self.urls@.contains_key(k) <==> old(self).urls@.contains_key(k)) && (old(self).urls@.contains_key(k) ==> self.urls@[k]
                    == old(self).urls@[k])) by {
                    assert(domains@[i as int]@ != k);
                }
                shard_choices = shard_choices.push(s_g@);
                assert forall|a: int| #![trigger domains@[a]] 0 <= a < i + 1 implies job_prepared(
                    old(self).domain_state@[domains@[a]@],
                    stored_shards(old(self).urls@, domains@[a]@),
                    shard_choices[a],
                    jobs@[a],
                    urls_per_job as int,
                    self.domain_state@[domains@[a]@],
                    self.urls@[domains@[a]@],
                ) by {
                    if a < i {
                        assert(domains@[a]@ != domains@[i as int]@);
                        assert(jobs@[a] == jobs0[a]);
                        assert(shard_choices[a] == shard_choices.subrange(
                            0,
                            shard_choices.len() - 1,
                        )[a]);
                        assert(self.domain_state@.contains_key(domains@[a]@) <==> pre.domain_state@.contains_key(domains@[a]@));
                        assert(self.urls@.contains_key(domains@[a]@) <==> pre.urls@.contains_key(domains@[a]@));
                        assert(self.domain_state@[domains@[a]@] == pre.domain_state@[domains@[a]@]);
                        assert(self.urls@[domains@[a]@] == pre.urls@[domains@[a]@]);
                    } else {
                        assert(pre.domain_state@[dom@] == old(self).domain_state@[dom@]);
                        assert(pre.urls@.contains_key(dom@) <==> old(self).urls@.contains_key(
                            dom@,
                        ));
                        assert(pre.urls@.contains_key(dom@) ==> pre.urls@[dom@] == old(
                            self,
                        ).urls@[dom@]);
                        assert(stored_shards(old(self).urls@, dom@) == (if pre.urls@.contains_key(
                            dom@,
                        ) {
                            pre.urls@[dom@]
                        } else {
                            Seq::<Map<Seq<char>, UrlState>>::empty()
                        }));
                        assert(job_prepared(
                            old(self).domain_state@[domains@[a]@],
                            stored_shards(old(self).urls@, domains@[a]@),
                            s_g@,
                            jobs@[a],
                            urls_per_job as int,
                            self.domain_state@[domains@[a]@],
                            self.urls@[domains@[a]@],
                        ));
                    }
                }
            }
            i = i + 1;
        }
        proof {
            assert forall|ii: int| #![trigger domains@[ii]] 0 <= ii < domains@.len() implies
                some_shard_prepared(
                old(self).domain_state@[domains@[ii]@],
                stored_shards(old(self).urls@, domains@[ii]@),
                jobs@[ii],
                urls_per_job as int,
                self.domain_state@[domains@[ii]@],
                self.urls@[domains@[ii]@],
            ) by {
                assert(job_prepared(
                    old(self).domain_state@[domains@[ii]@],
                    stored_shards(old(self).urls@, domains@[ii]@),
                    shard_choices[ii],
                    jobs@[ii],
                    urls_per_job as int,
                    self.domain_state@[domains@[ii]@],
                    self.urls@[domains@[ii]@],
                ));
            }
        }
        jobs
    }

    /// Prepare one domain's job, as `prepared` describes.
    #[verifier::loop_isolation(false)]
    #[verifier::rlimit(100)]
    fn prepare_one(&mut self, domain: &Domain, urls_per_job: usize) -> (r: (Job, Ghost<int>))
        requires
            old(self).inv(),
            old(self).domain_state@.contains_key(domain@),
        ensures
            final(self).inv(),
            old(self).shards_bounded() ==> final(self).shards_bounded(),
            final(self).redirects@ == old(self).redirects@,
            r.0.domain@ == domain@,
            !r.0.fetch_sitemap,
            forall|k: Seq<char>|
                #![trigger final(self).domain_state@.contains_key(k)]
                #![trigger final(self).urls@.contains_key(k)]
                k != domain@ ==> ((final(self).domain_state@.contains_key(k) <==> old(self).domain_state@.contains_key(k)) && (old(self).domain_state@.contains_key(k)
                    ==> final(self).domain_state@[k] == old(self).domain_state@[k]) && (final(self).urls@.contains_key(k) <==> old(self).urls@.contains_key(k)) && (old(self).urls@.contains_key(k) ==> final(self).urls@[k] == old(self).urls@[k])),
            final(self).domain_state@.contains_key(domain@),
            final(self).urls@.contains_key(domain@),
            prepared(
                old(self).domain_state@[domain@],
                if old(self).urls@.contains_key(domain@) {
                    old(self).urls@[domain@]
                } else {
                    Seq::empty()
                },
                r.1@,
                r.0.urls@.map_values(|u: UrlString| u@),
                urls_per_job as int,
                final(self).domain_state@[domain@],
                final(self).urls@[domain@],
            ),
    {
        let state = match self.domain_state.get(domain) {
            Some(st) => st,
            None => {
                proof {
                    assert(false);
                }
                DomainState::fresh()
            },
        };
        match self.urls.get_shards(domain) {
            Some(v0) => {
                let _len_bound = v0.len();
                proof {
                    assert(state.max_shard_id + 1 <= v0@.len());
                    assert(state.max_shard_id < usize::MAX);
                }
            },
            None => {
                proof {
                    assert(state.max_shard_id == 0);
                }
            },
        }
        let shard_id = random_shard_id(state.max_shard_id);
        let key = DomainShard { domain: domain.duplicate(), shard_id };
        let mut shard: StrMap<UrlState> = match self.urls.get(&key) {
            Some(m) => m.duplicate(),
            None => StrMap::new(),
        };
        let ghost sh0raw: Seq<Map<Seq<char>, UrlState>> = if old(self).urls@.contains_key(
            domain@,
        ) {
            old(self).urls@[domain@]
        } else {
            Seq::empty()
        };
        let ghost shard0 = shard@;
        proof {
            assert(shard0 == if 0 <= shard_id < sh0raw.len() {
                sh0raw[shard_id as int]
            } else {
                Map::<Seq<char>, UrlState>::empty()
            });
        }
        // Collect the pending URLs with their weights.
        let entries = shard.entries();
        proof {
            assert forall|a: int|
                #![trigger entries@[a]]
                0 <= a < entries@.len() implies shard0.contains_key(entries@[a].0@)
                && shard0[entries@[a].0@] == entries@[a].1 by {
                assert(shard0.contains_key(entries@[a].0@));
                assert(shard0[entries@[a].0@] == entries@[a].1);
            }
        }
        let ne = entries.len();
        let mut pending: Vec<(UrlString, u64)> = Vec::new();
        let mut e: usize = 0;
        while e < ne
            invariant
                ne == entries@.len(),
                0 <= e <= ne,
                forall|a: int, b: int| 0 <= a < b < entries@.len() ==> entries@[a].0@ != entries@[b].0@,
                forall|a: int|
                    #![trigger entries@[a]]
                    0 <= a < entries@.len() ==> shard0.contains_key(entries@[a].0@),
                forall|a: int|
                    #![trigger entries@[a]]
                    0 <= a < entries@.len() ==> shard0[entries@[a].0@] == entries@[a].1,
                forall|a: int, b: int|
                    0 <= a < pending@.len() && 0 <= b < entries@.len() && pending@[a].0@
                        == entries@[b].0@ ==> b < e,
                forall|k: Seq<char>|
                    #[trigger] shard0.contains_key(k) ==> exists|a: int|
                        0 <= a < entries@.len() && entries@[a].0@ == k,
                forall|a: int, b: int|
                    0 <= a < b < pending@.len() ==> pending@[a].0@ != pending@[b].0@,
                forall|a: int|
                    #![trigger pending@[a]]
                    0 <= a < pending@.len() ==> shard0.contains_key(pending@[a].0@)
                        && shard0[pending@[a].0@].status is Pending,
                forall|a: int|
                    #![trigger entries@[a]]
                    0 <= a < e ==> (entries@[a].1.status is Pending ==> exists|b: int|
                        0 <= b < pending@.len() && #[trigger] pending@[b].0@ == entries@[a].0@),
            decreases ne - e,
        {
            let ghost pend0 = pending@;
            if entries[e].1.status.pending() {
                pending.push((UrlString(entries[e].0.clone()), entries[e].1.weight));
            }
            proof {
                assert forall|a: int|
                    #![trigger entries@[a]]
                    0 <= a < e + 1 implies (entries@[a].1.status is Pending ==> exists|b: int|
                    0 <= b < pending@.len() && #[trigger] pending@[b].0@ == entries@[a].0@) by {
                    if entries@[a].1.status is Pending {
                        if a < e {
                            let b = choose|b: int|
                                0 <= b < pend0.len() && #[trigger] pend0[b].0@ == entries@[a].0@;
                            assert(pending@[b] == pend0[b]);
                        } else {
                            assert(pending@[pending@.len() - 1].0@ == entries@[e as int].0@);
                        }
                    }
                }
            }
            e = e + 1;
        }
        let ghost pending0 = pending@;
        let sampled = weighted_sample(pending, urls_per_job);
        let ghost picked = sampled@.map_values(|u: UrlString| u@);
        proof {
            let src = choose|src: Seq<int>| picks_from(sampled@, pending0, src);
            assert forall|a: int, b: int| 0 <= a < b < picked.len() implies picked[a]
                != picked[b] by {
                assert(sampled@[a] == pending0[src[a]].0);
                assert(sampled@[b] == pending0[src[b]].0);
                assert(src[a] != src[b]);
            }
            assert forall|a: int| 0 <= a < picked.len() implies shard0.contains_key(
                #[trigger] picked[a],
            ) && shard0[picked[a]].status is Pending by {
                assert(sampled@[a] == pending0[src[a]].0);
            }
            if picked.len() < urls_per_job {
                lemma_distinct_full_range(src, pending0.len() as int);
                assert forall|u: Seq<char>|
                    #[trigger] shard0.contains_key(u) && shard0[u].status is Pending implies
                    picked.contains(u) by {
                    let b = choose|b: int| 0 <= b < entries@.len() && entries@[b].0@ == u;
                    assert(entries@[b].1.status is Pending);
                    let c = choose|c: int| 0 <= c < pending0.len() && pending0[c].0@ == u;
                    assert(src.contains(c));
                    let a = choose|a: int| 0 <= a < src.len() && src[a] == c;
                    assert(sampled@[a] == pending0[c].0);
                    assert(picked[a] == u);
                }
            }
        }
        // Mark the drawn URLs as being crawled.
        let m = sampled.len();
        let mut i: usize = 0;
        while i < m
            invariant
                m == sampled@.len(),
                0 <= i <= m,
                picked == sampled@.map_values(|u: UrlString| u@),
                forall|a: int, b: int| 0 <= a < b < picked.len() ==> picked[a] != picked[b],
                forall|a: int|
                    0 <= a < picked.len() ==> shard0.contains_key(#[trigger] picked[a])
                        && shard0[picked[a]].status is Pending,
                forall|u: Seq<char>|
                    #[trigger] shard@.contains_key(u) <==> shard0.contains_key(u),
                forall|u: Seq<char>|
                    #[trigger] shard0.contains_key(u) ==> shard@[u] == (UrlState {
                        weight: shard0[u].weight,
                        status: if picked.take(i as int).contains(u) {
                            UrlStatus::Crawling
                        } else {
                            shard0[u].status
                        },
                    }),
            decreases m - i,
        {
            let u = &sampled[i];
            proof {
                assert(picked[i as int] == u@);
                assert(shard0.contains_key(u@));
            }
            let w = match shard.get(&u.0) {
                Some(st) => st.weight,
                None => {
                    proof {
                        assert(false);
                    }
                    0
                },
            };
            let ghost sh_before = shard@;
            shard.insert(u.0.clone(), UrlState { weight: w, status: UrlStatus::Crawling });
            proof {
                assert forall|q: Seq<char>| #[trigger] shard0.contains_key(q) implies shard@[q]
                    == (UrlState {
                    weight: shard0[q].weight,
                    status: if picked.take(i + 1).contains(q) {
                        UrlStatus::Crawling
                    } else {
                        shard0[q].status
                    },
                }) by {
                    if q == u@ {
                        assert(picked.take(i + 1)[i as int] == q);
                        assert(picked.take(i + 1).contains(q));
                        assert(w == shard0[q].weight);
                    } else {
                        assert(shard@[q] == sh_before[q]);
                        assert(picked.take(i + 1).contains(q) == picked.take(i as int).contains(q))
                            by {
                            if picked.take(i + 1).contains(q) {
                                let x = choose|x: int|
                                    0 <= x < picked.take(i + 1).len() && #[trigger] picked.take(
                                        i + 1,
                                    )[x] == q;
                                assert(picked.take(i as int)[x] == q);
                            } else if picked.take(i as int).contains(q) {
                                let x = choose|x: int|
                                    0 <= x < picked.take(i as int).len() && #[trigger] picked.take(
                                        i as int,
                                    )[x] == q;
                                assert(picked.take(i + 1)[x] == q);
                            }
                        }
                    }
                }
            }
            i = i + 1;
        }
        proof {
            assert(picked.take(m as int) =~= picked);
        }
        // Recompute the domain weight over what is still pending here.
        let entries2 = shard.entries();
        let ne2 = entries2.len();
        let mut mx: u64 = 0;
        let ghost mut wit: Seq<char> = Seq::empty();
        let mut any_pending: bool = false;
        let mut e: usize = 0;
        while e < ne2
            invariant
                ne2 == entries2@.len(),
                0 <= e <= ne2,
                forall|a: int|
                    #![trigger entries2@[a]]
                    0 <= a < entries2@.len() ==> shard@.contains_key(entries2@[a].0@)
                        && shard@[entries2@[a].0@] == entries2@[a].1,
                forall|k: Seq<char>|
                    #[trigger] shard@.contains_key(k) ==> exists|a: int|
                        0 <= a < entries2@.len() && entries2@[a].0@ == k,
                forall|a: int|
                    #![trigger entries2@[a]]
                    0 <= a < e ==> (entries2@[a].1.status is Pending ==> entries2@[a].1.weight
                        <= mx),
                (any_pending == false) ==> mx == 0,
                any_pending ==> shard@.contains_key(wit) && shard@[wit].status is Pending && shard@[wit].weight == mx,
            decreases ne2 - e,
        {
            if entries2[e].1.status.pending() && (entries2[e].1.weight > mx || !any_pending) {
                mx = entries2[e].1.weight;
                any_pending = true;
                proof {
                    wit = entries2@[e as int].0@;
                }
            }
            e = e + 1;
        }
        proof {
            if !any_pending {
                assert forall|a: int| #![trigger entries2@[a]] 0 <= a < ne2 implies (
                entries2@[a].1.status is Pending ==> entries2@[a].1.weight <= mx) by {}
            }
        }
        let new_state = DomainState {
            weight: mx,
            status: state.status,
            max_shard_id: state.max_shard_id,
        };
        self.domain_state.put(domain, new_state);
        let ghost marked = shard@;
        self.urls.put(&key, shard);
        let job = Job { domain: domain.duplicate(), fetch_sitemap: false, urls: sampled };
        proof {
            assert(job.urls@.map_values(|u: UrlString| u@) == picked);
            let sx = shard_id as int;
            let sh1 = self.urls@[domain@];
            assert(sh1 == padded_update(sh0raw, sx, marked));
            assert(0 <= sx < sh1.len());
            assert(sh1[sx] == marked);
            assert(picked.take(m as int) == picked);
            assert forall|u: Seq<char>| #[trigger] shard0.contains_key(u) implies marked[u] == (
            UrlState {
                weight: shard0[u].weight,
                status: if picked.contains(u) {
                    UrlStatus::Crawling
                } else {
                    shard0[u].status
                },
            }) by {
                assert(marked[u] == (UrlState {
                    weight: shard0[u].weight,
                    status: if picked.take(m as int).contains(u) {
                        UrlStatus::Crawling
                    } else {
                        shard0[u].status
                    },
                }));
            }
            if any_pending {
                assert(marked.contains_key(wit) && marked[wit].status is Pending
                    && marked[wit].weight == mx);
            }
            let st0p = old(self).domain_state@[domain@];
            let sh0p = if old(self).urls@.contains_key(domain@) {
                old(self).urls@[domain@]
            } else {
                Seq::<Map<Seq<char>, UrlState>>::empty()
            };
            let sxp = shard_id as int;
            let pickedp = job.urls@.map_values(|u: UrlString| u@);
            let kp = urls_per_job as int;
            let st1p = self.domain_state@[domain@];
            let sh1p = self.urls@[domain@];
            let shardp = shard_at(sh0p, sxp);
            let markedp = shard_at(sh1p, sxp);
            assert(shardp == shard0);
            assert(markedp == marked);
            assert(pickedp == picked);
            assert(0 <= sxp <= st0p.max_shard_id);
            assert(forall|a: int, b: int| 0 <= a < b < pickedp.len() ==> pickedp[a] != pickedp[b]);
            assert(pickedp.len() <= kp);
            assert(forall|a: int|
                0 <= a < pickedp.len() ==> shard_at(sh0p, sxp).contains_key(#[trigger] pickedp[a])
                    && shard_at(sh0p, sxp)[pickedp[a]].status is Pending);
            assert(pickedp.len() < kp ==> forall|u: Seq<char>|
                #[trigger] shard_at(sh0p, sxp).contains_key(u) && shard_at(sh0p, sxp)[u].status
                    is Pending ==> pickedp.contains(u));
            assert(sh1p == padded_update(sh0p, sxp, shard_at(sh1p, sxp)));
            assert(forall|u: Seq<char>|
                #[trigger] shard_at(sh1p, sxp).contains_key(u) <==> shard_at(sh0p, sxp).contains_key(
                    u,
                ));
            assert(forall|u: Seq<char>|
                #[trigger] shard_at(sh0p, sxp).contains_key(u) ==> shard_at(sh1p, sxp)[u] == (
                UrlState {
                    weight: shard_at(sh0p, sxp)[u].weight,
                    status: if pickedp.contains(u) {
                        UrlStatus::Crawling
                    } else {
                        shard_at(sh0p, sxp)[u].status
                    },
                }));
            assert(st1p.status == st0p.status);
            assert(st1p.max_shard_id == st0p.max_shard_id);
            assert(forall|u: Seq<char>|
                #[trigger] shard_at(sh1p, sxp).contains_key(u) && shard_at(sh1p, sxp)[u].status
                    is Pending ==> shard_at(sh1p, sxp)[u].weight <= st1p.weight);
            assert(st1p.weight == 0 || exists|u: Seq<char>|
                #[trigger] shard_at(sh1p, sxp).contains_key(u) && shard_at(sh1p, sxp)[u].status
                    is Pending && shard_at(sh1p, sxp)[u].weight == st1p.weight);
            assert(prepared(st0p, sh0p, sxp, pickedp, kp, st1p, sh1p));
            assert forall|u: Seq<char>|
                #[trigger] marked.contains_key(u) && marked[u].status is Pending implies marked[u].weight
                <= mx by {
                let a = choose|a: int| 0 <= a < entries2@.len() && entries2@[a].0@ == u;
                assert(entries2@[a].1 == marked[u]);
            }
            if picked.len() < urls_per_job {
                assert forall|u: Seq<char>|
                    #[trigger] marked.contains_key(u) && marked[u].status is Pending implies
                    picked.contains(u) by {
                    assert(shard0.contains_key(u));
                    if !(shard0[u].status is Pending) {
                        assert(marked[u].status == shard0[u].status);
                    }
                }
            }
            if old(self).shards_bounded() {
                assert forall|d: Seq<char>| #[trigger] self.urls@.contains_key(d) implies
                    self.urls@[d].len() <= self.domain_state@[d].max_shard_id + 1 by {
                    if d != domain@ {
                        assert(old(self).urls@.contains_key(d));
                    }
                }
            }
        }
        (job, Ghost(shard_id as int))
    }
}

/// The state a domain starts a batch from: its stored state, or a fresh one.
pub open spec fn start_state(d: crate::model::DomainMap, dom: Seq<char>) -> DomainState {
    if d.contains_key(dom) {
        d[dom]
    } else {
        DomainState { weight: 0, status: DomainStatus::Pending, max_shard_id: 0 }
    }
}

/// The shards a domain starts a batch from: its stored shards padded so that
/// the accepting shard id points into them.
pub open spec fn start_shards(
    d: crate::model::DomainMap,
    u: crate::model::ShardMap,
    dom: Seq<char>,
) -> crate::model::ShardSeq {
    pad_to(
        if u.contains_key(dom) {
            u[dom]
        } else {
            Seq::empty()
        },
        start_state(d, dom).max_shard_id + 1,
    )
}

/// A domain's stored shards, or none.
pub open spec fn stored_shards(u: crate::model::ShardMap, dom: Seq<char>) -> crate::model::ShardSeq {
    if u.contains_key(dom) {
        u[dom]
    } else {
        Seq::empty()
    }
}

/// The shard a sequence holds at `s`: empty where none was written.
pub open spec fn shard_at(sh: Seq<Map<Seq<char>, UrlState>>, s: int) -> Map<Seq<char>, UrlState> {
    if 0 <= s < sh.len() {
        sh[s]
    } else {
        Map::<Seq<char>, UrlState>::empty()
    }
}

/// What preparing one job does to a domain: a shard `s` no higher than the
/// accepting one was chosen, the job's URLs are pairwise distinct pending
/// URLs of that shard (all of them if fewer than asked for), exactly they
/// were marked as being crawled, every other shard is untouched, and the
/// domain weight becomes the largest weight still pending in that shard.
pub open spec fn prepared(
    st0: DomainState,
    sh0: Seq<Map<Seq<char>, UrlState>>,
    s: int,
    picked: Seq<Seq<char>>,
    k: int,
    st1: DomainState,
    sh1: Seq<Map<Seq<char>, UrlState>>,
) -> bool {
    &&& 0 <= s <= st0.max_shard_id
    &&& forall|a: int, b: int| 0 <= a < b < picked.len() ==> picked[a] != picked[b]
    &&& picked.len() <= k
    &&& forall|a: int|
        0 <= a < picked.len() ==> shard_at(sh0, s).contains_key(#[trigger] picked[a])
            && shard_at(sh0, s)[picked[a]].status is Pending
    &&& (picked.len() < k ==> forall|u: Seq<char>|
        #[trigger] shard_at(sh0, s).contains_key(u) && shard_at(sh0, s)[u].status is Pending
            ==> picked.contains(u))
    &&& sh1 == padded_update(sh0, s, shard_at(sh1, s))
    &&& forall|u: Seq<char>|
        #[trigger] shard_at(sh1, s).contains_key(u) <==> shard_at(sh0, s).contains_key(u)
    &&& forall|u: Seq<char>|
        #[trigger] shard_at(sh0, s).contains_key(u) ==> shard_at(sh1, s)[u] == (UrlState {
            weight: shard_at(sh0, s)[u].weight,
            status: if picked.contains(u) {
                UrlStatus::Crawling
            } else {
                shard_at(sh0, s)[u].status
            },
        })
    &&& st1.status == st0.status
    &&& st1.max_shard_id == st0.max_shard_id
    &&& forall|u: Seq<char>|
        #[trigger] shard_at(sh1, s).contains_key(u) && shard_at(sh1, s)[u].status is Pending
            ==> shard_at(sh1, s)[u].weight <= st1.weight
    &&& (st1.weight == 0 || exists|u: Seq<char>|
        #[trigger] shard_at(sh1, s).contains_key(u) && shard_at(sh1, s)[u].status is Pending
            && shard_at(sh1, s)[u].weight == st1.weight)
}

/// `prepared`, phrased over a job.
pub open spec fn job_prepared(
    st0: DomainState,
    sh0: Seq<Map<Seq<char>, UrlState>>,
    s: int,
    job: Job,
    k: int,
    st1: DomainState,
    sh1: Seq<Map<Seq<char>, UrlState>>,
) -> bool {
    prepared(st0, sh0, s, job.urls@.map_values(|u: UrlString| u@), k, st1, sh1)
}

/// Some shard of the domain was prepared as `prepared` describes.
pub open spec fn some_shard_prepared(
    st0: DomainState,
    sh0: Seq<Map<Seq<char>, UrlState>>,
    job: Job,
    k: int,
    st1: DomainState,
    sh1: Seq<Map<Seq<char>, UrlState>>,
) -> bool {
    exists|s: int| job_prepared(st0, sh0, s, job, k, st1, sh1)
}

/// This domain's part of a URL stream, in order.
fn collect_batch(stream: &Vec<(UrlString, Domain, bool)>, dom: &Domain) -> (batch: Vec<
    (UrlString, bool),
>)
    ensures
        batch_view(batch@) == select_batch(stream_view(stream@), dom@),
{
    let ns = stream.len();
    let mut batch: Vec<(UrlString, bool)> = Vec::new();
    let mut j: usize = 0;
    while j < ns
        invariant
            ns == stream@.len(),
            0 <= j <= ns,
            batch_view(batch@) == select_batch(stream_view(stream@).take(j as int), dom@),
        decreases ns - j,
    {
        let ghost svw = stream_view(stream@);
        proof {
            assert(svw.take(j + 1).drop_last() =~= svw.take(j as int));
            assert(svw.take(j + 1).last() == svw[j as int]);
        }
        if stream[j].1.0 == dom.0 {
            let ghost b0 = batch@;
            batch.push((stream[j].0.duplicate(), stream[j].2));
            proof {
                assert(batch_view(batch@) =~= batch_view(b0).push(
                    (svw[j as int].0, svw[j as int].2),
                ));
                assert(batch_view(batch@) =~= select_batch(svw.take(j + 1), dom@));
            }
        } else {
            proof {
                assert(batch_view(batch@) =~= select_batch(svw.take(j + 1), dom@));
            }
        }
        j = j + 1;
    }
    proof {
        assert(stream_view(stream@).take(ns as int) =~= stream_view(stream@));
    }
    batch
}

/// Flatten a batch of responses into (url, target domain, cross-domain?)
/// order.
fn flatten_responses(responses: &Vec<JobResponse>) -> (stream: Vec<(UrlString, Domain, bool)>)
    ensures
        stream_view(stream@) == stream_of(responses@),
{
    let nr = responses.len();
    let mut stream: Vec<(UrlString, Domain, bool)> = Vec::new();
    let mut i: usize = 0;
    while i < nr
        invariant
            nr == responses@.len(),
            0 <= i <= nr,
            stream_view(stream@) == stream_of(responses@.take(i as int)),
        decreases nr - i,
    {
        let resp = &responses[i];
        let nu = resp.discovered_urls.len();
        let mut j: usize = 0;
        while j < nu
            invariant
                nr == responses@.len(),
                0 <= i < nr,
                resp == &responses@[i as int],
                nu == responses@[i as int].discovered_urls@.len(),
                0 <= j <= nu,
                stream_view(stream@) == stream_of(responses@.take(i as int)) + urls_stream(
                    responses@[i as int].discovered_urls@.take(j as int),
                    responses@[i as int].domain@,
                ),
            decreases nu - j,
        {
            let ghost us = responses@[i as int].discovered_urls@;
            let u = &resp.discovered_urls[j];
            let dom = Domain::from_url(u);
            let cross = !(resp.domain.0 == dom.0);
            let ghost s0 = stream@;
            stream.push((u.duplicate(), dom, cross));
            proof {
                assert(us.take(j + 1).drop_last() =~= us.take(j as int));
                assert(us.take(j + 1).last() == us[j as int]);
                assert(stream_view(stream@) =~= stream_view(s0).push(
                    (us[j as int]@, domain_of(us[j as int]@), responses@[i as int].domain@
                        != domain_of(us[j as int]@)),
                ));
            }
            j = j + 1;
        }
        proof {
            assert(responses@.take(i + 1).drop_last() =~= responses@.take(i as int));
            assert(responses@.take(i + 1).last() == responses@[i as int]);
            assert(responses@[i as int].discovered_urls@.take(nu as int)
                =~= responses@[i as int].discovered_urls@);
        }
        i = i + 1;
    }
    proof {
        assert(responses@.take(nr as int) =~= responses@);
    }
    stream
}

/// The distinct target domains of a URL stream, together with, for each
/// target, a stream position that names it, and for each stream position,
/// the index of its target.
fn distinct_targets(stream: &Vec<(UrlString, Domain, bool)>) -> (r: (
    Vec<Domain>,
    Ghost<Seq<int>>,
    Ghost<Seq<int>>,
))
    ensures
        ({
            let doms = r.0;
            let sidx = r.1@;
            let widx = r.2@;
            &&& forall|a: int, b: int| 0 <= a < b < doms@.len() ==> doms@[a]@ != doms@[b]@
            &&& sidx.len() == doms@.len()
            &&& forall|a: int|
                0 <= a < doms@.len() ==> 0 <= #[trigger] sidx[a] < stream@.len()
                    && stream@[sidx[a]].1@ == doms@[a]@
            &&& widx.len() == stream@.len()
            &&& forall|sp: int|
                0 <= sp < stream@.len() ==> 0 <= #[trigger] widx[sp] < doms@.len()
                    && doms@[widx[sp]]@ == stream@[sp].1@
        }),
{
    let ns = stream.len();
    let mut doms: Vec<Domain> = Vec::new();
    let ghost mut sidx: Seq<int> = Seq::empty();
    let ghost mut widx: Seq<int> = Seq::empty();
    let mut i: usize = 0;
    while i < ns
        invariant
            ns == stream@.len(),
            0 <= i <= ns,
            forall|a: int, b: int| 0 <= a < b < doms@.len() ==> doms@[a]@ != doms@[b]@,
            sidx.len() == doms@.len(),
            forall|a: int|
                0 <= a < doms@.len() ==> 0 <= #[trigger] sidx[a] < i && stream@[sidx[a]].1@
                    == doms@[a]@,
            widx.len() == i,
            forall|sp: int|
                0 <= sp < i ==> 0 <= #[trigger] widx[sp] < doms@.len() && doms@[widx[sp]]@
                    == stream@[sp].1@,
        decreases ns - i,
    {
        let mut found = false;
        let mut found_at: usize = 0;
        let nd = doms.len();
        let mut a: usize = 0;
        while a < nd
            invariant
                nd == doms@.len(),
                0 <= a <= nd,
                ns == stream@.len(),
                0 <= i < ns,
                found ==> 0 <= found_at < nd && doms@[found_at as int]@ == stream@[i as int].1@,
                !found ==> forall|b: int| 0 <= b < a ==> doms@[b]@ != stream@[i as int].1@,
            decreases nd - a,
        {
            if doms[a].0 == stream[i].1.0 {
                found = true;
                found_at = a;
                proof {
                    assert(doms@[a as int]@ == stream@[i as int].1@);
                }
            }
            a = a + 1;
        }
        if found {
            proof {
                widx = widx.push(found_at as int);
            }
        } else {
            doms.push(stream[i].1.duplicate());
            proof {
                assert(doms@[doms@.len() - 1]@ == stream@[i as int].1@);
                sidx = sidx.push(i as int);
                widx = widx.push(doms@.len() - 1);
            }
        }
        i = i + 1;
    }
    (doms, Ghost(sidx), Ghost(widx))
}

/// A URL stream as the model sees it.
pub open spec fn stream_view(s: Seq<(UrlString, Domain, bool)>) -> Seq<(Seq<char>, Seq<char>, bool)> {
    s.map_values(|t: (UrlString, Domain, bool)| (t.0@, t.1@, t.2))
}

/// A URL batch as the model sees it.
pub open spec fn batch_view(s: Seq<(UrlString, bool)>) -> Seq<(Seq<char>, bool)> {
    s.map_values(|p: (UrlString, bool)| (p.0@, p.1))
}

} // verus!
