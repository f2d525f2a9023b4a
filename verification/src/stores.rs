//! The frontier's three stores: redirects, per-domain state, and per-domain
//! sharded URL sets.  Each abstracts to a map keyed by the domain or URL
//! string.

use vstd::prelude::*;

use crate::states::DomainShard;
use crate::states::DomainState;
use crate::states::UrlState;
use crate::strmap::StrMap;
use crate::urls::Domain;
use crate::urls::UrlString;

verus! {

/// The from → to redirect map; writes are last-write-wins.
pub struct RedirectDb {
    map: StrMap<String>,
}

impl View for RedirectDb {
    type V = Map<Seq<char>, Seq<char>>;

    closed spec fn view(&self) -> Map<Seq<char>, Seq<char>> {
        self.map@.map_values(|v: String| v@)
    }
}

impl RedirectDb {
    /// A fresh, empty redirect store.
    pub fn open() -> (r: RedirectDb)
        ensures
            r@ == Map::<Seq<char>, Seq<char>>::empty(),
    {
        let r = RedirectDb { map: StrMap::new() };
        proof {
            assert(r@ =~= Map::<Seq<char>, Seq<char>>::empty());
        }
        r
    }

    /// Record that `from` redirected to `to`, overwriting an older target.
    pub fn put(&mut self, from: &UrlString, to: &UrlString)
        ensures
            final(self)@ == old(self)@.insert(from@, to@),
    {
        self.map.insert(from.0.clone(), to.0.clone());
        proof {
            assert(self@ =~= old(self)@.insert(from@, to@));
        }
    }

    /// Where `from` redirected to, if anywhere.
    pub fn get(&self, from: &UrlString) -> (r: Option<UrlString>)
        ensures
            match r {
                Some(to) => self@.contains_key(from@) && self@[from@] == to@,
                None => !self@.contains_key(from@),
            },
    {
        match self.map.get(&from.0) {
            Some(v) => Some(UrlString(v.clone())),
            None => None,
        }
    }
}

/// Scheduling state per domain.
pub struct DomainStateDb {
    map: StrMap<DomainState>,
}

impl View for DomainStateDb {
    type V = Map<Seq<char>, DomainState>;

    closed spec fn view(&self) -> Map<Seq<char>, DomainState> {
        self.map@
    }
}

impl DomainStateDb {
    /// A fresh, empty domain store.
    pub fn open() -> (r: DomainStateDb)
        ensures
            r@ == Map::<Seq<char>, DomainState>::empty(),
    {
        DomainStateDb { map: StrMap::new() }
    }

    /// The state of a domain, if it is known.
    pub fn get(&self, domain: &Domain) -> (r: Option<DomainState>)
        ensures
            match r {
                Some(st) => self@.contains_key(domain@) && self@[domain@] == st,
                None => !self@.contains_key(domain@),
            },
    {
        match self.map.get(&domain.0) {
            Some(st) => Some(*st),
            None => None,
        }
    }

    /// Set the state of a domain.
    pub fn put(&mut self, domain: &Domain, state: DomainState)
        ensures
            final(self)@ == old(self)@.insert(domain@, state),
    {
        self.map.insert(domain.0.clone(), state);
    }

    /// Every known domain with its state: each pair is in the store, each
    /// domain occurs once, and no domain is missing.
    pub fn iter(&self) -> (r: Vec<(Domain, DomainState)>)
        ensures
            r@.len() == self@.len(),
            forall|i: int|
                0 <= i < r@.len() ==> #[trigger] self@.contains_key(r@[i].0@) && self@[r@[i].0@]
                    == r@[i].1,
            forall|i: int, j: int| 0 <= i < j < r@.len() ==> r@[i].0@ != r@[j].0@,
            forall|k: Seq<char>|
                #[trigger] self@.contains_key(k) ==> exists|i: int|
                    0 <= i < r@.len() && r@[i].0@ == k,
            self@.dom().finite(),
    {
        let entries = self.map.entries();
        let n = entries.len();
        let mut r: Vec<(Domain, DomainState)> = Vec::new();
        let mut i: usize = 0;
        while i < n
            invariant
                n == entries@.len(),
                0 <= i <= n,
                r@.len() == i,
                forall|j: int|
                    0 <= j < i ==> r@[j].0@ == entries@[j].0@ && r@[j].1 == entries@[j].1,
            decreases n - i,
        {
            r.push((Domain(entries[i].0.clone()), entries[i].1));
            i = i + 1;
        }
        proof {
            assert forall|k: Seq<char>| #[trigger] self@.contains_key(k) implies exists|i: int|
                0 <= i < r@.len() && r@[i].0@ == k by {
                let i = choose|i: int| 0 <= i < entries@.len() && entries@[i].0@ == k;
                assert(r@[i].0@ == k);
            }
        }
        r
    }
}

/// One domain's shards as the store abstracts them: the maps the shards
/// denote, indexed by shard id.
pub open spec fn shards_view(v: Seq<StrMap<UrlState>>) -> Seq<Map<Seq<char>, UrlState>> {
    Seq::new(v.len(), |i: int| v[i]@)
}

/// A shard sequence with the shard at `s` set to `m`, padded with empty
/// shards where ids below `s` were never written.
pub open spec fn padded_update(
    sv: Seq<Map<Seq<char>, UrlState>>,
    s: int,
    m: Map<Seq<char>, UrlState>,
) -> Seq<Map<Seq<char>, UrlState>> {
    let n = if s + 1 <= sv.len() {
        sv.len() as int
    } else {
        s + 1
    };
    Seq::new(n as nat, |i: int| if i == s {
        m
    } else if i < sv.len() {
        sv[i]
    } else {
        Map::empty()
    })
}

/// Sharded URL sets, keyed by domain and shard id.
pub struct UrlStateDb {
    map: StrMap<Vec<StrMap<UrlState>>>,
}

impl View for UrlStateDb {
    type V = Map<Seq<char>, Seq<Map<Seq<char>, UrlState>>>;

    closed spec fn view(&self) -> Map<Seq<char>, Seq<Map<Seq<char>, UrlState>>> {
        self.map@.map_values(|v: Vec<StrMap<UrlState>>| shards_view(v@))
    }
}

impl UrlStateDb {
    /// A fresh, empty shard store.
    pub fn open() -> (r: UrlStateDb)
        ensures
            r@ == Map::<Seq<char>, Seq<Map<Seq<char>, UrlState>>>::empty(),
    {
        let r = UrlStateDb { map: StrMap::new() };
        proof {
            assert(r@ =~= Map::<Seq<char>, Seq<Map<Seq<char>, UrlState>>>::empty());
        }
        r
    }

    /// The shard under a key, if it was ever written.
    pub fn get(&self, key: &DomainShard) -> (r: Option<&StrMap<UrlState>>)
        ensures
            match r {
                Some(m) => self@.contains_key(key.domain@) && key.shard_id < self@[key.domain@].len()
                    && self@[key.domain@][key.shard_id as int] == m@,
                None => !self@.contains_key(key.domain@) || self@[key.domain@].len()
                    <= key.shard_id,
            },
    {
        match self.map.get(&key.domain.0) {
            Some(v) => {
                let n = v.len();
                proof {
                    assert(self@[key.domain@].len() == v@.len());
                }
                if key.shard_id < (n as u64) {
                    Some(&v[key.shard_id as usize])
                } else {
                    None
                }
            },
            None => None,
        }
    }

    /// Write the shard under a key, padding skipped ids with empty shards.
    pub fn put(&mut self, key: &DomainShard, urls: StrMap<UrlState>)
        requires
            key.shard_id < usize::MAX,
        ensures
            final(self)@ == old(self)@.insert(
                key.domain@,
                padded_update(
                    if old(self)@.contains_key(key.domain@) {
                        old(self)@[key.domain@]
                    } else {
                        Seq::empty()
                    },
                    key.shard_id as int,
                    urls@,
                ),
            ),
    {
        let ghost old_shards: Seq<Map<Seq<char>, UrlState>> = if self@.contains_key(
            key.domain@,
        ) {
            self@[key.domain@]
        } else {
            Seq::empty()
        };
        let mut v: Vec<StrMap<UrlState>> = match self.map.get(&key.domain.0) {
            Some(existing) => Self::duplicate_shards(existing),
            None => Vec::new(),
        };
        proof {
            assert(shards_view(v@) == old_shards);
        }
        let s = key.shard_id as usize;
        let n = v.len();
        if s < n {
            let ghost before = shards_view(v@);
            v[s] = urls;
            proof {
                assert(shards_view(v@) =~= before.update(s as int, urls@));
                assert(shards_view(v@) =~= padded_update(old_shards, s as int, urls@));
            }
        } else {
            while v.len() < s
                invariant
                    old_shards.len() <= v@.len() <= s,
                    shards_view(v@) =~= old_shards + Seq::new(
                        (v@.len() - old_shards.len()) as nat,
                        |i: int| Map::<Seq<char>, UrlState>::empty(),
                    ),
                decreases s - v@.len(),
            {
                let ghost v0 = v@;
                v.push(StrMap::new());
                proof {
                    assert(shards_view(v@) =~= shards_view(v0).push(Map::empty()));
                    assert(shards_view(v@) =~= old_shards + Seq::new(
                        (v@.len() - old_shards.len()) as nat,
                        |i: int| Map::<Seq<char>, UrlState>::empty(),
                    ));
                }
            }
            let ghost v0 = v@;
            v.push(urls);
            proof {
                assert(shards_view(v@) =~= shards_view(v0).push(urls@));
                assert(shards_view(v@) =~= padded_update(old_shards, s as int, urls@));
            }
        }
        self.map.insert(key.domain.0.clone(), v);
        proof {
            assert(self@ =~= old(self)@.insert(
                key.domain@,
                padded_update(old_shards, key.shard_id as int, urls@),
            ));
        }
    }

    /// One domain's shards, if any were ever written.
    pub fn get_shards(&self, d: &Domain) -> (r: Option<&Vec<StrMap<UrlState>>>)
        ensures
            match r {
                Some(v) => self@.contains_key(d@) && shards_view(v@) == self@[d@],
                None => !self@.contains_key(d@),
            },
    {
        self.map.get(&d.0)
    }

    /// Replace one domain's shards wholesale.
    pub fn set_shards(&mut self, d: &Domain, v: Vec<StrMap<UrlState>>)
        ensures
            final(self)@ == old(self)@.insert(d@, shards_view(v@)),
    {
        self.map.insert(d.0.clone(), v);
        proof {
            assert(self@ =~= old(self)@.insert(d@, shards_view(v@)));
        }
    }

    /// A copy of one domain's shard vector.
    pub(crate) fn duplicate_shards(v: &Vec<StrMap<UrlState>>) -> (r: Vec<StrMap<UrlState>>)
        ensures
            shards_view(r@) == shards_view(v@),
            r@.len() == v@.len(),
    {
        let mut r: Vec<StrMap<UrlState>> = Vec::new();
        let mut i: usize = 0;
        while i < v.len()
            invariant
                0 <= i <= v@.len(),
                r@.len() == i,
                forall|j: int| 0 <= j < i ==> #[trigger] r@[j]@ == v@[j]@,
            decreases v@.len() - i,
        {
            r.push(v[i].duplicate());
            i = i + 1;
        }
        proof {
            assert(shards_view(r@) =~= shards_view(v@));
        }
        r
    }
}

} // verus!
