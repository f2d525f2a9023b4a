//! The mathematical model of the frontier: what seeding, URL insertion and
//! redirect capture do to the stores, as functions on maps, and the laws those
//! functions obey.

use vstd::prelude::*;

use crate::states::DomainState;
use crate::states::DomainStatus;
use crate::states::JobResponse;
use crate::states::UrlResponse;
use crate::states::UrlState;
use crate::states::UrlStatus;
use crate::states::bump;
use crate::urls::UrlString;
use crate::urls::domain_of;

verus! {

/// One domain's shards: the map each shard denotes, indexed by shard id.
pub type ShardSeq = Seq<Map<Seq<char>, UrlState>>;

/// All domains' scheduling states.
pub type DomainMap = Map<Seq<char>, DomainState>;

/// All domains' shards.
pub type ShardMap = Map<Seq<char>, ShardSeq>;

/// The state a seeded domain is reset to.
pub open spec fn seeded_domain_state() -> DomainState {
    DomainState { weight: 0, status: DomainStatus::Pending, max_shard_id: 0 }
}

/// The state a URL starts in.
pub open spec fn fresh_url_state() -> UrlState {
    UrlState { weight: 0, status: UrlStatus::Pending }
}

/// Seed a single URL: its domain's state is overwritten and the URL joins
/// shard 0 as pending.
pub open spec fn seed_one(d: DomainMap, s: ShardMap, u: Seq<char>) -> (DomainMap, ShardMap) {
    let dom = domain_of(u);
    let shards0 = if s.contains_key(dom) && s[dom].len() >= 1 {
        s[dom]
    } else {
        seq![Map::<Seq<char>, UrlState>::empty()]
    };
    let sh0 = shards0[0].insert(u, fresh_url_state());
    (d.insert(dom, seeded_domain_state()), s.insert(dom, shards0.update(0, sh0)))
}

/// Seed a list of URLs in order.
pub open spec fn apply_seeds(d: DomainMap, s: ShardMap, urls: Seq<Seq<char>>) -> (DomainMap, ShardMap)
    decreases urls.len(),
{
    if urls.len() == 0 {
        (d, s)
    } else {
        let prev = apply_seeds(d, s, urls.drop_last());
        seed_one(prev.0, prev.1, urls.last())
    }
}

/// Every URL of the list stands seeded: its domain carries the seeded state
/// and shard 0 holds the URL as fresh.
pub open spec fn seeds_applied(d: DomainMap, s: ShardMap, urls: Seq<Seq<char>>) -> bool {
    forall|i: int|
        0 <= i < urls.len() ==> {
            let dom = domain_of(#[trigger] urls[i]);
            &&& d.contains_key(dom)
            &&& d[dom] == seeded_domain_state()
            &&& s.contains_key(dom)
            &&& s[dom].len() >= 1
            &&& s[dom][0].contains_key(urls[i])
            &&& s[dom][0][urls[i]] == fresh_url_state()
        }
}

proof fn lemma_seed_one_applied(d: DomainMap, s: ShardMap, urls: Seq<Seq<char>>, u: Seq<char>)
    requires
        seeds_applied(d, s, urls),
    ensures
        seeds_applied(seed_one(d, s, u).0, seed_one(d, s, u).1, urls.push(u)),
{
    let d1 = seed_one(d, s, u).0;
    let s1 = seed_one(d, s, u).1;
    let up = urls.push(u);
    assert forall|i: int| 0 <= i < up.len() implies {
        let dom = domain_of(#[trigger] up[i]);
        &&& d1.contains_key(dom)
        &&& d1[dom] == seeded_domain_state()
        &&& s1.contains_key(dom)
        &&& s1[dom].len() >= 1
        &&& s1[dom][0].contains_key(up[i])
        &&& s1[dom][0][up[i]] == fresh_url_state()
    } by {
        let dom = domain_of(up[i]);
        if i < urls.len() {
            assert(up[i] == urls[i]);
        } else {
            assert(up[i] == u);
        }
    }
}

/// Seeding the whole list leaves every listed URL seeded.
pub proof fn lemma_apply_seeds_applied(d: DomainMap, s: ShardMap, urls: Seq<Seq<char>>)
    ensures
        seeds_applied(apply_seeds(d, s, urls).0, apply_seeds(d, s, urls).1, urls),
    decreases urls.len(),
{
    if urls.len() > 0 {
        lemma_apply_seeds_applied(d, s, urls.drop_last());
        let prev = apply_seeds(d, s, urls.drop_last());
        lemma_seed_one_applied(prev.0, prev.1, urls.drop_last(), urls.last());
        assert(urls.drop_last().push(urls.last()) =~= urls);
    }
}

proof fn lemma_seed_one_noop(d: DomainMap, s: ShardMap, urls: Seq<Seq<char>>, i: int)
    requires
        seeds_applied(d, s, urls),
        0 <= i < urls.len(),
    ensures
        seed_one(d, s, urls[i]) == (d, s),
{
    let u = urls[i];
    let dom = domain_of(u);
    assert(d.insert(dom, seeded_domain_state()) =~= d);
    let shards0 = s[dom];
    assert(shards0[0].insert(u, fresh_url_state()) =~= shards0[0]);
    assert(shards0.update(0, shards0[0]) =~= shards0);
    assert(s.insert(dom, shards0) =~= s);
}

proof fn lemma_apply_seeds_noop(d: DomainMap, s: ShardMap, urls: Seq<Seq<char>>, n: int)
    requires
        seeds_applied(d, s, urls),
        0 <= n <= urls.len(),
    ensures
        apply_seeds(d, s, urls.take(n)) == (d, s),
    decreases n,
{
    if n > 0 {
        lemma_apply_seeds_noop(d, s, urls, n - 1);
        assert(urls.take(n).drop_last() =~= urls.take(n - 1));
        assert(urls.take(n).last() == urls[n - 1]);
        lemma_seed_one_noop(d, s, urls, n - 1);
    } else {
        assert(urls.take(0).len() == 0);
    }
}

/// Seeding is idempotent: replaying the same seed list changes nothing, so
/// after two rounds each seed's shard entry and domain state are exactly what
/// one round leaves.
pub proof fn lemma_seed_urls_idempotent(d: DomainMap, s: ShardMap, urls: Seq<Seq<char>>)
    ensures
        apply_seeds(apply_seeds(d, s, urls).0, apply_seeds(d, s, urls).1, urls) == apply_seeds(
            d,
            s,
            urls,
        ),
{
    let once = apply_seeds(d, s, urls);
    lemma_apply_seeds_applied(d, s, urls);
    lemma_apply_seeds_noop(once.0, once.1, urls, urls.len() as int);
    assert(urls.take(urls.len() as int) =~= urls);
}

/// The redirect pairs one response reports, in order.
pub open spec fn response_redirects(rs: Seq<UrlResponse>) -> Seq<(Seq<char>, Seq<char>)>
    decreases rs.len(),
{
    if rs.len() == 0 {
        Seq::empty()
    } else {
        response_redirects(rs.drop_last()) + (match rs.last() {
            UrlResponse::Redirected { url, new_url } => seq![(url@, new_url@)],
            _ => Seq::empty(),
        })
    }
}

/// The redirect pairs a whole batch of responses reports, in order.
pub open spec fn all_redirects(resps: Seq<JobResponse>) -> Seq<(Seq<char>, Seq<char>)>
    decreases resps.len(),
{
    if resps.len() == 0 {
        Seq::empty()
    } else {
        all_redirects(resps.drop_last()) + response_redirects(resps.last().url_responses@)
    }
}

/// Record redirect pairs in order; a later write to the same source wins.
pub open spec fn apply_redirects(
    m: Map<Seq<char>, Seq<char>>,
    prs: Seq<(Seq<char>, Seq<char>)>,
) -> Map<Seq<char>, Seq<char>>
    decreases prs.len(),
{
    if prs.len() == 0 {
        m
    } else {
        apply_redirects(m, prs.drop_last()).insert(prs.last().0, prs.last().1)
    }
}

/// The discovered URLs of one response as (url, target domain, cross-domain?)
/// triples, in order; `from` is the responding domain.
pub open spec fn urls_stream(urls: Seq<UrlString>, from: Seq<char>) -> Seq<
    (Seq<char>, Seq<char>, bool),
>
    decreases urls.len(),
{
    if urls.len() == 0 {
        Seq::empty()
    } else {
        urls_stream(urls.drop_last(), from).push(
            (urls.last()@, domain_of(urls.last()@), from != domain_of(urls.last()@)),
        )
    }
}

/// All discovered URLs of a batch of responses, in order.
pub open spec fn stream_of(resps: Seq<JobResponse>) -> Seq<(Seq<char>, Seq<char>, bool)>
    decreases resps.len(),
{
    if resps.len() == 0 {
        Seq::empty()
    } else {
        stream_of(resps.drop_last()) + urls_stream(
            resps.last().discovered_urls@,
            resps.last().domain@,
        )
    }
}

/// The (url, cross-domain?) pairs of the stream whose target domain is
/// `dom`, in order.
pub open spec fn select_batch(stream: Seq<(Seq<char>, Seq<char>, bool)>, dom: Seq<char>) -> Seq<
    (Seq<char>, bool),
>
    decreases stream.len(),
{
    if stream.len() == 0 {
        Seq::empty()
    } else {
        select_batch(stream.drop_last(), dom) + (if stream.last().1 == dom {
            seq![(stream.last().0, stream.last().2)]
        } else {
            Seq::empty()
        })
    }
}

/// The (url, cross-domain?) pairs of a whole batch of responses that belong
/// to `dom`, in order.
pub open spec fn batch_for(resps: Seq<JobResponse>, dom: Seq<char>) -> Seq<(Seq<char>, bool)> {
    select_batch(stream_of(resps), dom)
}

/// A domain's batch is nonempty exactly when some stream entry targets it.
pub proof fn lemma_select_batch_nonempty(
    stream: Seq<(Seq<char>, Seq<char>, bool)>,
    dom: Seq<char>,
)
    ensures
        select_batch(stream, dom).len() > 0 <==> exists|j: int|
            0 <= j < stream.len() && stream[j].1 == dom,
    decreases stream.len(),
{
    if stream.len() > 0 {
        lemma_select_batch_nonempty(stream.drop_last(), dom);
        if select_batch(stream, dom).len() > 0 {
            if stream.last().1 == dom {
                assert(stream[stream.len() - 1].1 == dom);
            } else {
                let j = choose|j: int|
                    0 <= j < stream.drop_last().len() && stream.drop_last()[j].1 == dom;
                assert(stream[j].1 == dom);
            }
        } else {
            assert(forall|j: int|
                0 <= j < stream.drop_last().len() ==> stream.drop_last()[j] == stream[j]);
        }
    }
}

/// Fold one discovered URL into a domain's state and shards.  A URL that is
/// new to a full accepting shard first advances `max_shard_id` and opens an
/// empty shard; the URL's weight then grows by one exactly when the link was
/// cross-domain, the domain weight tracks the maximum, and an existing
/// status is never touched.
pub open spec fn insert_one(st: DomainState, sh: ShardSeq, u: Seq<char>, cross: bool) -> (
    DomainState,
    ShardSeq,
) {
    let cur = sh[st.max_shard_id as int];
    let rolled = !cur.contains_key(u) && cur.len() >= crate::URLS_PER_SHARD;
    let max1 = if rolled {
        (st.max_shard_id + 1) as u64
    } else {
        st.max_shard_id
    };
    let sh1 = if rolled {
        if max1 < sh.len() {
            sh.update(max1 as int, Map::empty())
        } else {
            sh.push(Map::empty())
        }
    } else {
        sh
    };
    let cur1 = sh1[max1 as int];
    let prev = if cur1.contains_key(u) {
        cur1[u]
    } else {
        fresh_url_state()
    };
    let w1 = if cross {
        bump(prev.weight)
    } else {
        prev.weight
    };
    let st1 = DomainState {
        weight: if st.weight >= w1 {
            st.weight
        } else {
            w1
        },
        status: st.status,
        max_shard_id: max1,
    };
    (st1, sh1.update(max1 as int, cur1.insert(u, UrlState { weight: w1, status: prev.status })))
}

/// Fold a batch of discovered URLs into a domain, in order.
pub open spec fn apply_batch(st: DomainState, sh: ShardSeq, batch: Seq<(Seq<char>, bool)>) -> (
    DomainState,
    ShardSeq,
)
    decreases batch.len(),
{
    if batch.len() == 0 {
        (st, sh)
    } else {
        let prev = apply_batch(st, sh, batch.drop_last());
        insert_one(prev.0, prev.1, batch.last().0, batch.last().1)
    }
}

/// A shard sequence padded with empty shards up to length `n`.
pub open spec fn pad_to(sv: ShardSeq, n: int) -> ShardSeq {
    let len = if n <= sv.len() {
        sv.len() as int
    } else {
        n
    };
    Seq::new(len as nat, |i: int| if i < sv.len() {
        sv[i]
    } else {
        Map::empty()
    })
}

/// An intra-domain link contributes nothing to a URL's weight; a
/// cross-domain link contributes one: after folding in one discovered URL,
/// the URL's weight in the accepting shard is its old weight (zero for a new
/// URL) plus one exactly when the link was cross-domain.
pub proof fn lemma_cross_domain_weight(st: DomainState, sh: ShardSeq, u: Seq<char>, cross: bool)
    requires
        sh.len() >= st.max_shard_id + 1,
        st.max_shard_id < u64::MAX,
    ensures
        ({
            let r = insert_one(st, sh, u, cross);
            let cur = sh[st.max_shard_id as int];
            let rolled = !cur.contains_key(u) && cur.len() >= crate::URLS_PER_SHARD;
            let w0 = if cur.contains_key(u) {
                cur[u].weight
            } else {
                0
            };
            let accepting = r.1[r.0.max_shard_id as int];
            &&& accepting.contains_key(u)
            &&& accepting[u].weight == if cross {
                bump(if rolled { 0 } else { w0 })
            } else {
                if rolled { 0 } else { w0 }
            }
            &&& rolled ==> !cur.contains_key(u)
        }),
{
}

proof fn lemma_insert_one_monotone(st: DomainState, sh: ShardSeq, u: Seq<char>, cross: bool)
    requires
        sh.len() >= 1,
        sh.len() == st.max_shard_id + 1,
        st.max_shard_id < u64::MAX,
    ensures
        ({
            let r = insert_one(st, sh, u, cross);
            &&& r.1.len() == r.0.max_shard_id + 1
            &&& sh.len() <= r.1.len() <= sh.len() + 1
            &&& r.0.status == st.status
            &&& r.0.weight >= st.weight
            &&& st.max_shard_id <= r.0.max_shard_id <= st.max_shard_id + 1
            &&& forall|s: int, w: Seq<char>|
                0 <= s < sh.len() && #[trigger] sh[s].contains_key(w) ==> r.1[s].contains_key(w)
                    && r.1[s][w].weight >= sh[s][w].weight && r.1[s][w].status == sh[s][w].status
        }),
{
    let r = insert_one(st, sh, u, cross);
    let cur = sh[st.max_shard_id as int];
    let rolled = !cur.contains_key(u) && cur.len() >= crate::URLS_PER_SHARD;
    assert forall|s: int, w: Seq<char>|
        0 <= s < sh.len() && #[trigger] sh[s].contains_key(w) implies r.1[s].contains_key(w)
        && r.1[s][w].weight >= sh[s][w].weight && r.1[s][w].status == sh[s][w].status by {
        if !rolled && s == sh.len() - 1 {
            if w == u {
                assert(r.1[s] == cur.insert(u, UrlState { weight: r.1[s][u].weight, status: cur[u].status }));
            }
        }
    }
}

/// Folding a batch in never loses a URL, never lowers a URL's weight, never
/// changes a URL's status, and never lowers the domain weight, its shard
/// count, or changes its scheduling status.
pub proof fn lemma_apply_batch_monotone(
    st: DomainState,
    sh: ShardSeq,
    batch: Seq<(Seq<char>, bool)>,
)
    requires
        sh.len() >= 1,
        sh.len() == st.max_shard_id + 1,
        st.max_shard_id + batch.len() <= u64::MAX,
    ensures
        ({
            let r = apply_batch(st, sh, batch);
            &&& r.1.len() == r.0.max_shard_id + 1
            &&& r.1.len() >= sh.len()
            &&& r.0.status == st.status
            &&& r.0.weight >= st.weight
            &&& st.max_shard_id <= r.0.max_shard_id <= st.max_shard_id + batch.len()
            &&& forall|s: int, u: Seq<char>|
                0 <= s < sh.len() && #[trigger] sh[s].contains_key(u) ==> r.1[s].contains_key(u)
                    && r.1[s][u].weight >= sh[s][u].weight && r.1[s][u].status == sh[s][u].status
        }),
    decreases batch.len(),
{
    if batch.len() > 0 {
        lemma_apply_batch_monotone(st, sh, batch.drop_last());
        let mid = apply_batch(st, sh, batch.drop_last());
        lemma_insert_one_monotone(mid.0, mid.1, batch.last().0, batch.last().1);
        let r = apply_batch(st, sh, batch);
        assert forall|s: int, u: Seq<char>|
            0 <= s < sh.len() && #[trigger] sh[s].contains_key(u) implies r.1[s].contains_key(u)
            && r.1[s][u].weight >= sh[s][u].weight && r.1[s][u].status == sh[s][u].status by {
            assert(mid.1[s].contains_key(u));
        }
    }
}

/// Politeness: whatever one sampling round marked as in progress, a second
/// round that draws only pending domains from the resulting state cannot
/// return.
pub proof fn lemma_politeness(mid: DomainMap, r1: Seq<Seq<char>>, r2: Seq<Seq<char>>)
    requires
        forall|i: int|
            0 <= i < r1.len() ==> mid.contains_key(#[trigger] r1[i]) && mid[r1[i]].status
                is CrawlInProgress,
        forall|i: int|
            0 <= i < r2.len() ==> mid.contains_key(#[trigger] r2[i]) && mid[r2[i]].status
                is Pending,
    ensures
        forall|i: int, j: int| 0 <= i < r1.len() && 0 <= j < r2.len() ==> r1[i] != r2[j],
{
}

} // verus!
