//! URL strings and the domains derived from them.
//!
//! A URL enters the frontier as its canonical string form; the registrable
//! domain is read off that string once, by the `url` crate, and the pair is
//! treated as plain data everywhere else.

use vstd::prelude::*;

verus! {

/// A URL's canonical string form.  Equality and ordering are byte-wise on the
/// canonical form; it is the key inside a shard.
pub struct UrlString(pub String);

impl View for UrlString {
    type V = Seq<char>;

    open spec fn view(&self) -> Seq<char> {
        self.0@
    }
}

impl UrlString {
    pub fn new(s: &str) -> (r: UrlString)
        ensures
            r@ == s@,
    {
        UrlString(s.to_string())
    }

    pub fn duplicate(&self) -> (r: UrlString)
        ensures
            r@ == self@,
    {
        UrlString(self.0.clone())
    }
}

/// A canonicalized registrable domain derived from a URL.  Equality is
/// byte-wise on the canonical form.
pub struct Domain(pub String);

impl View for Domain {
    type V = Seq<char>;

    open spec fn view(&self) -> Seq<char> {
        self.0@
    }
}

impl Domain {
    pub fn new(s: &str) -> (r: Domain)
        ensures
            r@ == s@,
    {
        Domain(s.to_string())
    }

    pub fn duplicate(&self) -> (r: Domain)
        ensures
            r@ == self@,
    {
        Domain(self.0.clone())
    }

    /// The domain a URL belongs to: the host part of its canonical form, or
    /// the whole string when no host can be read off it.
    pub fn from_url(url: &UrlString) -> (d: Domain)
        ensures
            d@ == domain_of(url@),
    {
        match url_host(&url.0) {
            Some(host) => Domain(host),
            None => Domain(url.0.clone()),
        }
    }
}

/// The host of a URL string as the `url` crate parses it; `None` when the
/// string does not parse or has no host.
pub uninterp spec fn host_of(s: Seq<char>) -> Option<Seq<char>>;

/// The domain a URL string belongs to: its host, with the whole string as the
/// fallback for host-less URLs.
pub open spec fn domain_of(s: Seq<char>) -> Seq<char> {
    match host_of(s) {
        Some(h) => h,
        None => s,
    }
}

/// Relies on `url::Url::parse` and `url::Url::host_str`: both depend on the
/// input string alone, so the host is a function of it.
#[verifier::external_body]
fn url_host(s: &String) -> (r: Option<String>)
    ensures
        r is Some <==> host_of(s@) is Some,
        r is Some ==> r.unwrap()@ == host_of(s@).unwrap(),
{
    match url::Url::parse(s) {
        Ok(u) => u.host_str().map(|h| h.to_string()),
        Err(_) => None,
    }
}

} // verus!
