//! Request types of the webgraph lookup service.  The handlers answer from a
//! distributed graph store and live outside this crate; the request shapes
//! and the cap on queried hosts are plain data and logic, so they live here.

use vstd::prelude::*;

verus! {

/// The service looks at no more than this many hosts of one query.
pub const MAX_HOSTS: usize = 20;

/// Ask for hosts similar to the given ones.
pub struct SimilarHosts {
    pub hosts: Vec<String>,
    pub top_n: usize,
}

impl SimilarHosts {
    /// The hosts the service actually queries: the first `MAX_HOSTS` of the
    /// request, or all of them when there are fewer.
    pub fn hosts_to_query(&self) -> (r: Vec<String>)
        ensures
            r@.len() == if self.hosts@.len() <= MAX_HOSTS {
                self.hosts@.len() as int
            } else {
                MAX_HOSTS as int
            },
            forall|i: int| 0 <= i < r@.len() ==> #[trigger] r@[i]@ == self.hosts@[i]@,
    {
        let n = if self.hosts.len() <= MAX_HOSTS {
            self.hosts.len()
        } else {
            MAX_HOSTS
        };
        let mut r: Vec<String> = Vec::new();
        let mut i: usize = 0;
        while i < n
            invariant
                n <= self.hosts@.len(),
                0 <= i <= n,
                r@.len() == i,
                forall|j: int| 0 <= j < i ==> #[trigger] r@[j]@ == self.hosts@[j]@,
            decreases n - i,
        {
            r.push(self.hosts[i].clone());
            i = i + 1;
        }
        r
    }
}

/// Ask whether the service knows a host.
pub struct Knows {
    pub host: String,
}

/// Which of the two graphs a link query walks.
#[derive(Clone, Copy, Debug, PartialEq, Eq, Structural)]
pub enum GraphLevel {
    Host,
    Page,
}

} // verus!
