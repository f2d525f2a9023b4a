//! Per-URL and per-domain scheduling state.

use vstd::prelude::*;

use crate::urls::Domain;
use crate::urls::UrlString;

verus! {

/// Lifecycle of a single URL.  URLs are created `Pending`, move to `Crawling`
/// when a job selects them, and end `Done` or `Failed`; the frontier itself
/// only ever sets `Pending` and `Crawling`.
#[derive(Clone, Copy, Debug)]
pub enum UrlStatus {
    Pending,
    Crawling,
    Failed { status_code: Option<u16> },
    Done,
}

impl UrlStatus {
    pub open spec fn is_pending(self) -> bool {
        self is Pending
    }

    pub fn pending(&self) -> (r: bool)
        ensures
            r == self.is_pending(),
    {
        matches!(self, UrlStatus::Pending)
    }
}

impl PartialEq for UrlStatus {
    fn eq(&self, other: &Self) -> (r: bool) {
        match (self, other) {
            (UrlStatus::Pending, UrlStatus::Pending) => true,
            (UrlStatus::Crawling, UrlStatus::Crawling) => true,
            (UrlStatus::Done, UrlStatus::Done) => true,
            (UrlStatus::Failed { status_code: a }, UrlStatus::Failed { status_code: b }) => match (
                a,
                b,
            ) {
                (None, None) => true,
                (Some(x), Some(y)) => x == y,
                _ => false,
            },
            _ => false,
        }
    }
}

impl Eq for UrlStatus {

}

impl vstd::std_specs::cmp::PartialEqSpecImpl for UrlStatus {
    open spec fn obeys_eq_spec() -> bool {
        true
    }

    open spec fn eq_spec(&self, other: &Self) -> bool {
        *self == *other
    }
}

/// Whether a domain may be handed to a worker (`Pending`) or one is already
/// crawling it (`CrawlInProgress`).
#[derive(Clone, Copy, Debug, PartialEq, Eq, Structural)]
pub enum DomainStatus {
    Pending,
    CrawlInProgress,
}

/// State of one URL inside a shard.
#[derive(Clone, Copy, Debug)]
pub struct UrlState {
    /// Count of inbound links from other domains; intra-domain links do not
    /// raise it, and it never decreases.
    pub weight: u64,
    pub status: UrlStatus,
}

impl UrlState {
    /// The state a URL starts in when it is first discovered or seeded.
    pub fn fresh() -> (r: UrlState)
        ensures
            r == (UrlState { weight: 0, status: UrlStatus::Pending }),
    {
        UrlState { weight: 0, status: UrlStatus::Pending }
    }
}

/// Scheduling state of one domain.
#[derive(Clone, Copy, Debug)]
pub struct DomainState {
    /// Running maximum of the domain's pending URL weights.
    pub weight: u64,
    pub status: DomainStatus,
    /// Identifier of the currently-accepting shard.
    pub max_shard_id: u64,
}

impl DomainState {
    /// The state a domain starts in when it is first seen.
    pub fn fresh() -> (r: DomainState)
        ensures
            r == (DomainState { weight: 0, status: DomainStatus::Pending, max_shard_id: 0 }),
    {
        DomainState { weight: 0, status: DomainStatus::Pending, max_shard_id: 0 }
    }
}

/// Key of one shard: a domain together with a shard identifier.
pub struct DomainShard {
    pub domain: Domain,
    pub shard_id: u64,
}

/// What a fetcher reports about one URL of a job; the frontier interprets
/// only redirects.
pub enum UrlResponse {
    Success { url: UrlString },
    Failed { url: UrlString, status_code: Option<u16> },
    Redirected { url: UrlString, new_url: UrlString },
}

/// What a fetcher reports back for one domain's job.
pub struct JobResponse {
    pub domain: Domain,
    pub discovered_urls: Vec<UrlString>,
    pub url_responses: Vec<UrlResponse>,
}

/// One unit of work for a fetcher: a domain and the URLs to fetch from it.
pub struct Job {
    pub domain: Domain,
    pub fetch_sitemap: bool,
    pub urls: Vec<UrlString>,
}

/// A weight one larger, capped at the largest representable weight.
pub open spec fn bump(w: u64) -> u64 {
    if w == u64::MAX {
        w
    } else {
        (w + 1) as u64
    }
}

/// Increment a weight, saturating at the top of the range.
pub fn bump_weight(w: u64) -> (r: u64)
    ensures
        r == bump(w),
{
    if w == u64::MAX {
        w
    } else {
        w + 1
    }
}

/// The larger of two weights.
pub fn max_weight(a: u64, b: u64) -> (r: u64)
    ensures
        r == if a >= b { a } else { b },
{
    if a >= b {
        a
    } else {
        b
    }
}

} // verus!
