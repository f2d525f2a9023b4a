use crawl_frontier::frontier::CrawlDb;
use crawl_frontier::sampler::weighted_sample;
use crawl_frontier::states::DomainShard;
use crawl_frontier::states::DomainStatus;
use crawl_frontier::states::JobResponse;
use crawl_frontier::states::UrlResponse;
use crawl_frontier::states::UrlStatus;
use crawl_frontier::urls::Domain;
use crawl_frontier::urls::UrlString;
use crawl_frontier::URLS_PER_SHARD;

#[test]
fn sampling() {
    let items: Vec<(usize, u64)> = vec![(0, 1), (1, 2), (2, 3), (3, 4)];
    let n = items.len();
    let sampled = weighted_sample(items, 10);
    assert_eq!(sampled.len(), n);

    let items: Vec<(usize, u64)> = vec![(0, 1), (1, 2), (2, 3), (3, 4)];
    let sampled = weighted_sample(items, 1);
    assert_eq!(sampled.len(), 1);

    let items: Vec<(usize, u64)> = vec![(0, 1), (1, 2), (2, 3), (3, 4)];
    let sampled = weighted_sample(items, 0);
    assert_eq!(sampled.len(), 0);

    let items: Vec<(usize, u64)> = vec![(0, 1000000000), (1, 2)];
    let sampled = weighted_sample(items, 1);
    assert_eq!(sampled.len(), 1);
    assert_eq!(sampled[0], 0);
}

#[test]
fn simple_politeness() {
    let mut db = CrawlDb::open();

    db.insert_seed_urls(&vec![UrlString::new("https://example.com")]);

    let domain = Domain::from_url(&UrlString::new("https://example.com"));

    let sample = db.sample_domains(128);

    assert_eq!(sample.len(), 1);
    assert_eq!(sample[0].0, domain.0);
    let st = db.domain_state.get(&domain).unwrap();
    assert_eq!(st.status, DomainStatus::CrawlInProgress);

    let new_sample = db.sample_domains(128);
    assert_eq!(new_sample.len(), 0);
}

#[test]
fn seeds_are_idempotent() {
    let mut db = CrawlDb::open();
    let seeds = vec![
        UrlString::new("https://a.test/one"),
        UrlString::new("https://a.test/two"),
    ];
    db.insert_seed_urls(&seeds);
    db.insert_seed_urls(&seeds);

    let domain = Domain::from_url(&UrlString::new("https://a.test/one"));
    let key = DomainShard { domain, shard_id: 0 };
    let shard = db.urls.get(&key).unwrap();
    assert_eq!(shard.len(), 2);
    for u in ["https://a.test/one", "https://a.test/two"] {
        let st = shard.get(&u.to_string()).unwrap();
        assert_eq!(st.weight, 0);
        assert_eq!(st.status, UrlStatus::Pending);
    }
    let dstate = db.domain_state.get(&Domain::new("a.test")).unwrap();
    assert_eq!(dstate.status, DomainStatus::Pending);
    assert_eq!(dstate.max_shard_id, 0);
    assert_eq!(dstate.weight, 0);
}

#[test]
fn shard_rollover() {
    let mut db = CrawlDb::open();
    db.insert_seed_urls(&vec![UrlString::new("https://a.test/")]);

    let mut discovered: Vec<UrlString> = Vec::new();
    for i in 0..(URLS_PER_SHARD + 1) {
        discovered.push(UrlString::new(&format!("https://a.test/page/{}", i)));
    }
    let resp = JobResponse {
        domain: Domain::new("a.test"),
        discovered_urls: discovered,
        url_responses: Vec::new(),
    };
    db.insert_urls(&vec![resp]);

    let dstate = db.domain_state.get(&Domain::new("a.test")).unwrap();
    assert_eq!(dstate.max_shard_id, 1);
    let shard0 = db
        .urls
        .get(&DomainShard { domain: Domain::new("a.test"), shard_id: 0 })
        .unwrap();
    assert_eq!(shard0.len(), URLS_PER_SHARD);
    // The seed stays in shard 0.
    assert!(shard0.get(&"https://a.test/".to_string()).is_some());
    let shard1 = db
        .urls
        .get(&DomainShard { domain: Domain::new("a.test"), shard_id: 1 })
        .unwrap();
    assert_eq!(shard1.len(), 2);
}

#[test]
fn cross_domain_weight() {
    let mut db = CrawlDb::open();
    db.insert_seed_urls(&vec![
        UrlString::new("https://a.test/"),
        UrlString::new("https://b.test/"),
    ]);
    let resp = JobResponse {
        domain: Domain::new("b.test"),
        discovered_urls: vec![UrlString::new("https://a.test/x")],
        url_responses: Vec::new(),
    };
    db.insert_urls(&vec![resp]);

    let shard0 = db
        .urls
        .get(&DomainShard { domain: Domain::new("a.test"), shard_id: 0 })
        .unwrap();
    assert_eq!(shard0.get(&"https://a.test/x".to_string()).unwrap().weight, 1);
    assert_eq!(db.domain_state.get(&Domain::new("a.test")).unwrap().weight, 1);

    // An intra-domain link adds nothing.
    let resp2 = JobResponse {
        domain: Domain::new("a.test"),
        discovered_urls: vec![UrlString::new("https://a.test/y")],
        url_responses: Vec::new(),
    };
    db.insert_urls(&vec![resp2]);
    let shard0 = db
        .urls
        .get(&DomainShard { domain: Domain::new("a.test"), shard_id: 0 })
        .unwrap();
    assert_eq!(shard0.get(&"https://a.test/y".to_string()).unwrap().weight, 0);

    // Every distinct linking domain adds one.
    for from in ["c.test", "d.test"] {
        let resp3 = JobResponse {
            domain: Domain::new(from),
            discovered_urls: vec![UrlString::new("https://a.test/x")],
            url_responses: Vec::new(),
        };
        db.insert_urls(&vec![resp3]);
    }
    let shard0 = db
        .urls
        .get(&DomainShard { domain: Domain::new("a.test"), shard_id: 0 })
        .unwrap();
    assert_eq!(shard0.get(&"https://a.test/x".to_string()).unwrap().weight, 3);
}

#[test]
fn redirect_capture() {
    let mut db = CrawlDb::open();
    let resp = JobResponse {
        domain: Domain::new("a.test"),
        discovered_urls: Vec::new(),
        url_responses: vec![UrlResponse::Redirected {
            url: UrlString::new("https://a.test/p"),
            new_url: UrlString::new("https://a.test/q"),
        }],
    };
    db.insert_urls(&vec![resp]);
    let to = db.redirects.get(&UrlString::new("https://a.test/p")).unwrap();
    assert_eq!(to.0, "https://a.test/q".to_string());
}

#[test]
fn prepare_jobs_advances_url_status() {
    let mut db = CrawlDb::open();
    db.insert_seed_urls(&vec![
        UrlString::new("https://a.test/1"),
        UrlString::new("https://a.test/2"),
        UrlString::new("https://a.test/3"),
    ]);
    let sampled = db.sample_domains(1);
    assert_eq!(sampled.len(), 1);

    let jobs = db.prepare_jobs(&sampled, 10);
    assert_eq!(jobs.len(), 1);
    assert_eq!(jobs[0].domain.0, "a.test".to_string());
    assert!(!jobs[0].fetch_sitemap);
    assert_eq!(jobs[0].urls.len(), 3);
    let shard0 = db
        .urls
        .get(&DomainShard { domain: Domain::new("a.test"), shard_id: 0 })
        .unwrap();
    for u in jobs[0].urls.iter() {
        let st = shard0.get(&u.0).unwrap();
        assert_eq!(st.status, UrlStatus::Crawling);
    }

    // A second pass finds nothing pending in that shard.
    let jobs2 = db.prepare_jobs(&vec![Domain::new("a.test")], 10);
    assert_eq!(jobs2.len(), 1);
    assert_eq!(jobs2[0].urls.len(), 0);
}

#[test]
fn domains_come_from_hosts() {
    let a = Domain::from_url(&UrlString::new("https://example.com/path"));
    let b = Domain::from_url(&UrlString::new("https://example.com/"));
    assert_eq!(a.0, b.0);
    assert_eq!(a.0, "example.com".to_string());
    // A string without a host falls back to itself.
    let c = Domain::from_url(&UrlString::new("not a url"));
    assert_eq!(c.0, "not a url".to_string());
}

#[test]
fn set_domain_status_creates_rows() {
    let mut db = CrawlDb::open();
    db.set_domain_status(&Domain::new("a.test"), DomainStatus::CrawlInProgress);
    let st = db.domain_state.get(&Domain::new("a.test")).unwrap();
    assert_eq!(st.status, DomainStatus::CrawlInProgress);
    assert_eq!(st.weight, 0);
    assert_eq!(st.max_shard_id, 0);
    db.set_domain_status(&Domain::new("a.test"), DomainStatus::Pending);
    let st = db.domain_state.get(&Domain::new("a.test")).unwrap();
    assert_eq!(st.status, DomainStatus::Pending);
}

#[test]
fn hosts_query_is_capped() {
    let mut hosts: Vec<String> = Vec::new();
    for i in 0..25 {
        hosts.push(format!("host{}.test", i));
    }
    let req = crawl_frontier::webgraph_api::SimilarHosts { hosts, top_n: 5 };
    let q = req.hosts_to_query();
    assert_eq!(q.len(), crawl_frontier::webgraph_api::MAX_HOSTS);
    assert_eq!(q[0], "host0.test".to_string());
    let req2 = crawl_frontier::webgraph_api::SimilarHosts {
        hosts: vec!["solo.test".to_string()],
        top_n: 5,
    };
    assert_eq!(req2.hosts_to_query().len(), 1);
}
