//! Search Orchestrator: the decisions of one search request, from the
//! parsed parameters to the rendered response, as a step machine.
//!
//! The caller performs the outside work — the cache lookup, the
//! aggregator call, the cache write, the rendering — and feeds each
//! result back in; the functions here decide what happens next.
//! States run `begin_search` → cache lookup → `on_cache_response` →
//! either rendering a hit, or aggregation → `on_aggregator_response` →
//! cache write → `on_cache_write` → rendering. An empty or missing
//! query short-circuits to a redirect before any cache access; any
//! failure past that point aborts the request with its error.

use vstd::prelude::*;
use crate::codec::{spec_decode_set, spec_encode_set, set_wf, encode_set, decode_set,
    lemma_set_round_trip};
use crate::engines::{spec_parse_cookie, spec_chosen_engines, names_model, resolve_engines};
use crate::pagination::{spec_effective_page, spec_cache_key, effective_page, build_cache_key};
use crate::results::{SearchResultSet, SetModel, Style, set_model, style_model, spec_enriched,
    enrich, clone_bytes};
use crate::text::{spec_is_blank, is_blank};

verus! {

/// Immutable per-process configuration, injected at construction.
pub struct Config {
    pub binding_ip: Vec<u8>,
    pub port: u16,
    pub default_engines: Vec<Vec<u8>>,
    pub random_delay: bool,
    pub debug: bool,
    pub style: Style,
}

/// One incoming search request, as the transport hands it over.
pub struct SearchRequest {
    pub query: Option<Vec<u8>>,
    pub page: Option<u32>,
    pub raw_uri: Vec<u8>,
    pub engine_cookie: Option<Vec<u8>>,
}

/// Why a request failed. An empty query is not an error (it redirects),
/// and a failed cache read is not an error (it becomes a miss).
#[derive(Debug, Clone, PartialEq, Eq)]
pub enum SearchError {
    MalformedCookie,
    Aggregation,
    Deserialization,
    Serialization,
    CacheWrite,
}

/// A request that passed the query check and waits for the cache lookup.
pub struct PendingCache {
    pub query: Vec<u8>,
    pub page: u32,
    pub key: Vec<u8>,
    pub cookie: Option<Vec<u8>>,
}

/// The first decision: redirect on an unusable query, else look up the
/// cache under the derived key.
pub enum BeginOutcome {
    Redirect,
    Lookup(PendingCache),
}

/// A cache miss that waits for the aggregator.
pub struct PendingAggregation {
    pub query: Vec<u8>,
    pub page: u32,
    pub random_delay: bool,
    pub debug: bool,
    pub engines: Vec<Vec<u8>>,
    pub key: Vec<u8>,
}

/// The decision after the cache lookup.
pub enum CacheOutcome {
    Hit(SearchResultSet),
    Miss(PendingAggregation),
    Fail(SearchError),
}

/// The decision after the aggregator call: store the enriched set under
/// the key, then render it — or fail.
pub enum AggOutcome {
    Store { key: Vec<u8>, payload: Vec<u8>, set: SearchResultSet },
    Fail(SearchError),
}

/// The decision after the cache write.
pub enum WriteOutcome {
    Render(SearchResultSet),
    Fail(SearchError),
}

/// Whether a query short-circuits to a redirect: it is missing, or it
/// trims to nothing.
pub open spec fn spec_redirects(query: Option<Vec<u8>>) -> bool {
    match query {
        Option::None => true,
        Option::Some(q) => spec_is_blank(q@),
    }
}

/// The model of an optional byte string.
pub open spec fn opt_bytes_model(o: Option<Vec<u8>>) -> Option<Seq<u8>> {
    match o {
        Option::None => Option::None,
        Option::Some(v) => Option::Some(v@),
    }
}

/// The decision that follows a cache lookup, at the model level.
pub enum CacheDecision {
    Hit(SetModel),
    Miss(Seq<Seq<u8>>),
    FailDecode,
    FailCookie,
}

/// What the orchestrator does with a cache answer: any answer is a hit
/// to deserialize; no answer — absence and store failure alike — is a
/// miss, which resolves the engine selection: the cookie's list when it
/// decodes and selects at least one engine, the defaults otherwise.
pub open spec fn spec_on_cache(
    cached: Option<Seq<u8>>,
    cookie: Option<Seq<u8>>,
    defaults: Seq<Seq<u8>>,
) -> CacheDecision {
    match cached {
        Option::Some(raw) => match spec_decode_set(raw) {
            Some(m) => CacheDecision::Hit(m),
            None => CacheDecision::FailDecode,
        },
        Option::None => match cookie {
            Option::None => CacheDecision::Miss(defaults),
            Option::Some(cs) => match spec_parse_cookie(cs) {
                Some(cm) => CacheDecision::Miss(spec_chosen_engines(cm.engines, defaults)),
                None => CacheDecision::FailCookie,
            },
        },
    }
}

/// First step: reject unusable queries with a redirect, otherwise
/// normalize the page, derive the cache key and ask for a lookup.
pub fn begin_search(req: &SearchRequest, config: &Config) -> (r: BeginOutcome)
    ensures
        match r {
            BeginOutcome::Redirect => spec_redirects(req.query),
            BeginOutcome::Lookup(p) => {
                &&& !spec_redirects(req.query)
                &&& req.query matches Option::Some(q) && p.query@ == q@
                &&& p.page == spec_effective_page(req.page)
                &&& (req.query matches Option::Some(q) && p.key@ == spec_cache_key(
                    config.binding_ip@,
                    config.port,
                    q@,
                    req.raw_uri@,
                    req.page,
                ))
                &&& opt_bytes_model(p.cookie) == opt_bytes_model(req.engine_cookie)
            },
        },
{
    match &req.query {
        Option::None => BeginOutcome::Redirect,
        Option::Some(q) => {
            if is_blank(q) {
                BeginOutcome::Redirect
            } else {
                let page = effective_page(req.page);
                let key = build_cache_key(
                    &config.binding_ip,
                    config.port,
                    q,
                    &req.raw_uri,
                    req.page,
                );
                let cookie = match &req.engine_cookie {
                    Option::None => Option::None,
                    Option::Some(c) => Option::Some(clone_bytes(c)),
                };
                BeginOutcome::Lookup(
                    PendingCache { query: clone_bytes(q), page, key, cookie },
                )
            }
        },
    }
}

/// Second step: a cache answer is deserialized and rendered as a hit,
/// bypassing enrichment; no answer resolves the engine selection and
/// asks for aggregation; a payload that does not deserialize, or a
/// malformed cookie, fails the request.
pub fn on_cache_response(p: PendingCache, cached: Option<Vec<u8>>, config: &Config) -> (r:
    CacheOutcome)
    ensures
        match spec_on_cache(
            opt_bytes_model(cached),
            opt_bytes_model(p.cookie),
            names_model(config.default_engines@),
        ) {
            CacheDecision::Hit(m) => r matches CacheOutcome::Hit(set) && set_model(set) == m,
            CacheDecision::Miss(es) => r matches CacheOutcome::Miss(pa) && {
                &&& names_model(pa.engines@) == es
                &&& pa.query@ == p.query@
                &&& pa.page == p.page
                &&& pa.key@ == p.key@
                &&& pa.random_delay == config.random_delay
                &&& pa.debug == config.debug
            },
            CacheDecision::FailDecode => r matches CacheOutcome::Fail(e)
                && e == SearchError::Deserialization,
            CacheDecision::FailCookie => r matches CacheOutcome::Fail(e)
                && e == SearchError::MalformedCookie,
        },
{
    match cached {
        Option::Some(raw) => match decode_set(&raw) {
            Option::Some(set) => CacheOutcome::Hit(set),
            Option::None => CacheOutcome::Fail(SearchError::Deserialization),
        },
        Option::None => match resolve_engines(&p.cookie, &config.default_engines) {
            Option::Some(engines) => CacheOutcome::Miss(
                PendingAggregation {
                    query: p.query,
                    page: p.page,
                    random_delay: config.random_delay,
                    debug: config.debug,
                    engines,
                    key: p.key,
                },
            ),
            Option::None => CacheOutcome::Fail(SearchError::MalformedCookie),
        },
    }
}

/// Third step on a miss: a failed aggregation fails the request; a
/// fresh result set is enriched with the configured style, serialized,
/// and handed back for the cache write that precedes rendering.
pub fn on_aggregator_response(p: PendingAggregation, result: Option<SearchResultSet>, style:
    &Style) -> (r: AggOutcome)
    ensures
        match result {
            Option::None => r matches AggOutcome::Fail(e) && e == SearchError::Aggregation,
            Option::Some(set) => {
                let enriched = spec_enriched(set_model(set), style_model(*style));
                if set_wf(enriched) {
                    r matches AggOutcome::Store { key, payload, set: out } && {
                        &&& key@ == p.key@
                        &&& payload@ == spec_encode_set(enriched)
                        &&& set_model(out) == enriched
                    }
                } else {
                    r matches AggOutcome::Fail(e) && e == SearchError::Serialization
                }
            },
        },
{
    match result {
        Option::None => AggOutcome::Fail(SearchError::Aggregation),
        Option::Some(mut set) => {
            enrich(&mut set, style);
            match encode_set(&set) {
                Option::Some(payload) => AggOutcome::Store { key: p.key, payload, set },
                Option::None => AggOutcome::Fail(SearchError::Serialization),
            }
        },
    }
}

/// Last step on a miss: only a successful cache write reaches
/// rendering; a failed write aborts the already-computed result.
pub fn on_cache_write(set: SearchResultSet, ok: bool) -> (r: WriteOutcome)
    ensures
        ok ==> (r matches WriteOutcome::Render(out) && set_model(out) == set_model(set)),
        !ok ==> (r matches WriteOutcome::Fail(e) && e == SearchError::CacheWrite),
{
    if ok {
        WriteOutcome::Render(set)
    } else {
        WriteOutcome::Fail(SearchError::CacheWrite)
    }
}

/// Law: for a non-empty query, exactly one of the hit path and the miss
/// path runs — a hit decision comes only from a cache answer, a miss
/// decision only from its absence, and no answer yields both.
pub proof fn lemma_hit_xor_miss(
    cached: Option<Seq<u8>>,
    cookie: Option<Seq<u8>>,
    defaults: Seq<Seq<u8>>,
)
    ensures
        spec_on_cache(cached, cookie, defaults) is Hit ==> cached is Some,
        spec_on_cache(cached, cookie, defaults) is Miss ==> cached is None,
        !(spec_on_cache(cached, cookie, defaults) is Hit && spec_on_cache(
            cached,
            cookie,
            defaults,
        ) is Miss),
{
}

/// Law: the engine selection handed to the aggregator is never empty —
/// as long as the configured defaults name at least one engine, every
/// miss carries a non-empty engine list, whatever cookie the request
/// brought.
pub proof fn lemma_selection_never_empty(
    cached: Option<Seq<u8>>,
    cookie: Option<Seq<u8>>,
    defaults: Seq<Seq<u8>>,
)
    requires
        defaults.len() > 0,
    ensures
        spec_on_cache(cached, cookie, defaults) matches CacheDecision::Miss(es)
            ==> es.len() > 0,
{
}

/// Law: a warm cache short-circuits aggregation — when the cache holds
/// the serialized form of a result set, the lookup decides Hit with
/// exactly that set, and never Miss, whatever cookie or defaults the
/// request carries.
pub proof fn lemma_warm_cache_hits(
    m: SetModel,
    cookie: Option<Seq<u8>>,
    defaults: Seq<Seq<u8>>,
)
    requires
        set_wf(m),
    ensures
        spec_on_cache(Option::Some(spec_encode_set(m)), cookie, defaults)
            == CacheDecision::Hit(m),
{
    lemma_set_round_trip(m);
}

} // verus!
