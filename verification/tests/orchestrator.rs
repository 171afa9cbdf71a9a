use websurfx::orchestrator::{
    begin_search, on_aggregator_response, on_cache_response, on_cache_write, AggOutcome,
    BeginOutcome, CacheOutcome, Config, SearchError, SearchRequest, WriteOutcome,
};
use websurfx::results::{SearchItem, SearchResultSet, Style};

fn config() -> Config {
    Config {
        binding_ip: b"127.0.0.1".to_vec(),
        port: 8080,
        default_engines: vec![b"engineA".to_vec(), b"engineB".to_vec()],
        random_delay: false,
        debug: false,
        style: Style { theme: b"simple".to_vec(), colorscheme: b"catppuccin-mocha".to_vec() },
    }
}

fn sweden_request() -> SearchRequest {
    SearchRequest {
        query: Some(b"sweden".to_vec()),
        page: None,
        raw_uri: b"/search?q=sweden".to_vec(),
        engine_cookie: None,
    }
}

fn fresh_set() -> SearchResultSet {
    SearchResultSet {
        results: vec![SearchItem {
            title: b"Sweden".to_vec(),
            url: b"https://en.wikipedia.org/wiki/Sweden".to_vec(),
            description: b"a country".to_vec(),
            engine: b"engineA".to_vec(),
        }],
        style: Style { theme: Vec::new(), colorscheme: Vec::new() },
        is_empty: false,
    }
}

#[test]
fn empty_query_redirects_without_touching_anything() {
    let req = SearchRequest {
        query: Some(b"".to_vec()),
        page: None,
        raw_uri: b"/search?q=".to_vec(),
        engine_cookie: None,
    };
    assert!(matches!(begin_search(&req, &config()), BeginOutcome::Redirect));
}

#[test]
fn missing_query_redirects() {
    let req = SearchRequest {
        query: None,
        page: None,
        raw_uri: b"/search".to_vec(),
        engine_cookie: None,
    };
    assert!(matches!(begin_search(&req, &config()), BeginOutcome::Redirect));
}

#[test]
fn sweden_without_page_gets_page_one_and_canonical_key() {
    let p = match begin_search(&sweden_request(), &config()) {
        BeginOutcome::Lookup(p) => p,
        BeginOutcome::Redirect => panic!("should look up the cache"),
    };
    assert_eq!(p.page, 1);
    assert_eq!(p.key, b"http://127.0.0.1:8080/search?q=sweden&page=1".to_vec());
    assert!(p.key.ends_with(b"&page=1"));
}

#[test]
fn page_zero_shares_the_key_of_the_pageless_request() {
    let pageless = match begin_search(&sweden_request(), &config()) {
        BeginOutcome::Lookup(p) => p,
        BeginOutcome::Redirect => panic!("should look up the cache"),
    };
    let mut req = sweden_request();
    req.page = Some(0);
    let zero = match begin_search(&req, &config()) {
        BeginOutcome::Lookup(p) => p,
        BeginOutcome::Redirect => panic!("should look up the cache"),
    };
    assert_eq!(zero.page, 1);
    assert_eq!(zero.key, pageless.key);
}

#[test]
fn cold_cache_miss_uses_default_engines() {
    let p = match begin_search(&sweden_request(), &config()) {
        BeginOutcome::Lookup(p) => p,
        BeginOutcome::Redirect => panic!("should look up the cache"),
    };
    match on_cache_response(p, None, &config()) {
        CacheOutcome::Miss(pa) => {
            assert_eq!(pa.engines, vec![b"engineA".to_vec(), b"engineB".to_vec()]);
            assert_eq!(pa.query, b"sweden".to_vec());
            assert_eq!(pa.page, 1);
        },
        _ => panic!("a cold cache must miss"),
    }
}

#[test]
fn malformed_cookie_fails_the_miss_path() {
    let mut req = sweden_request();
    req.engine_cookie = Some(b"{not a cookie".to_vec());
    let p = match begin_search(&req, &config()) {
        BeginOutcome::Lookup(p) => p,
        BeginOutcome::Redirect => panic!("should look up the cache"),
    };
    match on_cache_response(p, None, &config()) {
        CacheOutcome::Fail(e) => assert_eq!(e, SearchError::MalformedCookie),
        _ => panic!("a malformed cookie must fail the request"),
    }
}

#[test]
fn cookie_engines_reach_the_aggregator_call() {
    let mut req = sweden_request();
    req.engine_cookie = Some(
        br#"{"theme":"simple","colorscheme":"catppuccin-mocha","engines":["engineC"]}"#.to_vec(),
    );
    let p = match begin_search(&req, &config()) {
        BeginOutcome::Lookup(p) => p,
        BeginOutcome::Redirect => panic!("should look up the cache"),
    };
    match on_cache_response(p, None, &config()) {
        CacheOutcome::Miss(pa) => assert_eq!(pa.engines, vec![b"engineC".to_vec()]),
        _ => panic!("a cold cache must miss"),
    }
}

#[test]
fn undecodable_cached_payload_fails_the_hit_path() {
    let p = match begin_search(&sweden_request(), &config()) {
        BeginOutcome::Lookup(p) => p,
        BeginOutcome::Redirect => panic!("should look up the cache"),
    };
    match on_cache_response(p, Some(b"corrupted".to_vec()), &config()) {
        CacheOutcome::Fail(e) => assert_eq!(e, SearchError::Deserialization),
        _ => panic!("a corrupt payload must fail the request"),
    }
}

#[test]
fn failed_aggregation_fails_the_request() {
    let p = match begin_search(&sweden_request(), &config()) {
        BeginOutcome::Lookup(p) => p,
        BeginOutcome::Redirect => panic!("should look up the cache"),
    };
    let pa = match on_cache_response(p, None, &config()) {
        CacheOutcome::Miss(pa) => pa,
        _ => panic!("a cold cache must miss"),
    };
    match on_aggregator_response(pa, None, &config().style) {
        AggOutcome::Fail(e) => assert_eq!(e, SearchError::Aggregation),
        _ => panic!("a failed aggregation must fail the request"),
    }
}

#[test]
fn failed_cache_write_aborts_a_computed_result() {
    match on_cache_write(fresh_set(), false) {
        WriteOutcome::Fail(e) => assert_eq!(e, SearchError::CacheWrite),
        _ => panic!("a failed write must fail the request"),
    }
}

#[test]
fn miss_then_warm_hit_renders_identically() {
    let cfg = config();

    let p = match begin_search(&sweden_request(), &cfg) {
        BeginOutcome::Lookup(p) => p,
        BeginOutcome::Redirect => panic!("should look up the cache"),
    };
    let pa = match on_cache_response(p, None, &cfg) {
        CacheOutcome::Miss(pa) => pa,
        _ => panic!("a cold cache must miss"),
    };
    let key = pa.key.clone();
    let (stored_key, payload, enriched) =
        match on_aggregator_response(pa, Some(fresh_set()), &cfg.style) {
            AggOutcome::Store { key, payload, set } => (key, payload, set),
            AggOutcome::Fail(_) => panic!("aggregation succeeded"),
        };
    assert_eq!(stored_key, key);
    assert_eq!(enriched.style, cfg.style);
    assert!(!enriched.is_empty);
    match on_cache_write(enriched.clone(), true) {
        WriteOutcome::Render(out) => assert_eq!(out, enriched),
        WriteOutcome::Fail(_) => panic!("write succeeded"),
    }

    let p2 = match begin_search(&sweden_request(), &cfg) {
        BeginOutcome::Lookup(p) => p,
        BeginOutcome::Redirect => panic!("should look up the cache"),
    };
    assert_eq!(p2.key, key);
    match on_cache_response(p2, Some(payload), &cfg) {
        CacheOutcome::Hit(rendered) => assert_eq!(rendered, enriched),
        CacheOutcome::Miss(_) => panic!("a warm cache must never aggregate again"),
        CacheOutcome::Fail(_) => panic!("the cached payload decodes"),
    }
}

#[test]
fn empty_aggregator_result_sets_the_empty_flag() {
    let p = match begin_search(&sweden_request(), &config()) {
        BeginOutcome::Lookup(p) => p,
        BeginOutcome::Redirect => panic!("should look up the cache"),
    };
    let pa = match on_cache_response(p, None, &config()) {
        CacheOutcome::Miss(pa) => pa,
        _ => panic!("a cold cache must miss"),
    };
    let empty = SearchResultSet {
        results: vec![],
        style: Style { theme: Vec::new(), colorscheme: Vec::new() },
        is_empty: false,
    };
    match on_aggregator_response(pa, Some(empty), &config().style) {
        AggOutcome::Store { set, .. } => assert!(set.is_empty),
        AggOutcome::Fail(_) => panic!("aggregation succeeded"),
    }
}

#[test]
fn empty_cookie_engine_list_reaches_aggregation_with_defaults() {
    let mut req = sweden_request();
    req.engine_cookie =
        Some(br#"{"theme":"simple","colorscheme":"catppuccin-mocha","engines":[]}"#.to_vec());
    let p = match begin_search(&req, &config()) {
        BeginOutcome::Lookup(p) => p,
        BeginOutcome::Redirect => panic!("should look up the cache"),
    };
    match on_cache_response(p, None, &config()) {
        CacheOutcome::Miss(pa) => {
            assert!(!pa.engines.is_empty());
            assert_eq!(pa.engines, vec![b"engineA".to_vec(), b"engineB".to_vec()]);
        },
        _ => panic!("a cold cache must miss"),
    }
}
