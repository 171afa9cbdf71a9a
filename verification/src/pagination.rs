//! Pagination normalizer: derives the effective page number and the
//! canonical, fully-qualified cache key (URL form) from the raw query
//! and the declared page parameter.
//!
//! Keys are byte strings of the shape
//! `http://<host>:<port>/search?q=<query>&page=<n>`; a request without a
//! declared page keeps its raw URI and gets `&page=1` appended, so that
//! it collides with an explicit `page=1` request issued later.

use vstd::prelude::*;
use crate::text::{spec_dec, push_dec, push_all};

verus! {

/// The byte sequence of `http://`.
pub open spec fn lit_scheme() -> Seq<u8> {
    seq![104u8, 116u8, 116u8, 112u8, 58u8, 47u8, 47u8]
}

/// The byte sequence of `/search?q=`.
pub open spec fn lit_search_path() -> Seq<u8> {
    seq![47u8, 115u8, 101u8, 97u8, 114u8, 99u8, 104u8, 63u8, 113u8, 61u8]
}

/// The byte sequence of `&page=`.
pub open spec fn lit_page_param() -> Seq<u8> {
    seq![38u8, 112u8, 97u8, 103u8, 101u8, 61u8]
}

/// Appends `http://` to `out`.
fn push_scheme(out: &mut Vec<u8>)
    ensures
        final(out)@ == old(out)@ + lit_scheme(),
{
    out.push(104);
    out.push(116);
    out.push(116);
    out.push(112);
    out.push(58);
    out.push(47);
    out.push(47);
    assert(out@ =~= old(out)@ + lit_scheme());
}

/// Appends `/search?q=` to `out`.
fn push_search_path(out: &mut Vec<u8>)
    ensures
        final(out)@ == old(out)@ + lit_search_path(),
{
    out.push(47);
    out.push(115);
    out.push(101);
    out.push(97);
    out.push(114);
    out.push(99);
    out.push(104);
    out.push(63);
    out.push(113);
    out.push(61);
    assert(out@ =~= old(out)@ + lit_search_path());
}

/// Appends `&page=` to `out`.
fn push_page_param(out: &mut Vec<u8>)
    ensures
        final(out)@ == old(out)@ + lit_page_param(),
{
    out.push(38);
    out.push(112);
    out.push(97);
    out.push(103);
    out.push(101);
    out.push(61);
    assert(out@ =~= old(out)@ + lit_page_param());
}

/// The page number used for aggregation and key construction: pages
/// below 1, and an absent page, normalize to exactly 1.
pub open spec fn spec_effective_page(declared: Option<u32>) -> u32 {
    match declared {
        Option::None => 1,
        Option::Some(n) => if n <= 1 { 1 } else { n },
    }
}

/// The canonical search URI for `query`: `/search?q=<query>`.
pub open spec fn spec_search_uri(query: Seq<u8>) -> Seq<u8> {
    lit_search_path() + query
}

/// The canonical cache key. A declared page yields
/// `http://<host>:<port>/search?q=<query>&page=<effective page>`; an
/// absent one keeps the raw request URI and appends `&page=1`.
pub open spec fn spec_cache_key(
    host: Seq<u8>,
    port: u16,
    query: Seq<u8>,
    raw_uri: Seq<u8>,
    declared: Option<u32>,
) -> Seq<u8> {
    let origin = lit_scheme() + host + seq![58u8] + spec_dec(port as nat);
    match declared {
        Option::None => origin + raw_uri + lit_page_param() + seq![49u8],
        Option::Some(_) => origin + spec_search_uri(query) + lit_page_param()
            + spec_dec(spec_effective_page(declared) as nat),
    }
}

/// Returns the effective page for a declared page parameter.
pub fn effective_page(declared: Option<u32>) -> (p: u32)
    ensures
        p == spec_effective_page(declared),
{
    match declared {
        Option::None => 1,
        Option::Some(n) => if n <= 1 {
            1
        } else {
            n
        },
    }
}

/// Builds the canonical cache key for one request.
pub fn build_cache_key(
    host: &Vec<u8>,
    port: u16,
    query: &Vec<u8>,
    raw_uri: &Vec<u8>,
    declared: Option<u32>,
) -> (key: Vec<u8>)
    ensures
        key@ == spec_cache_key(host@, port, query@, raw_uri@, declared),
{
    let mut key: Vec<u8> = Vec::new();
    push_scheme(&mut key);
    push_all(&mut key, host);
    key.push(58);
    push_dec(&mut key, port as u64);
    match declared {
        Option::None => {
            push_all(&mut key, raw_uri);
            push_page_param(&mut key);
            key.push(49);
        },
        Option::Some(_) => {
            push_search_path(&mut key);
            push_all(&mut key, query);
            push_page_param(&mut key);
            let p = effective_page(declared);
            push_dec(&mut key, p as u64);
        },
    }
    assert(key@ =~= spec_cache_key(host@, port, query@, raw_uri@, declared));
    key
}

/// Law: any declared page at or below 1, and an absent page whose raw
/// URI is the canonical search URI for the query, derive the same cache
/// key as an explicit `page=1` request.
pub proof fn lemma_low_pages_share_key(
    host: Seq<u8>,
    port: u16,
    query: Seq<u8>,
    raw_uri: Seq<u8>,
    declared: Option<u32>,
)
    requires
        declared matches Option::Some(n) ==> n <= 1,
        declared is None ==> raw_uri == spec_search_uri(query),
    ensures
        spec_cache_key(host, port, query, raw_uri, declared)
            == spec_cache_key(host, port, query, raw_uri, Option::Some(1)),
{
    assert(spec_dec(1nat) =~= seq![49u8]);
    match declared {
        Option::None => {
            assert(spec_cache_key(host, port, query, raw_uri, Option::None)
                =~= spec_cache_key(host, port, query, raw_uri, Option::Some(1)));
        },
        Option::Some(n) => {
            assert(spec_effective_page(declared) == 1);
        },
    }
}

} // verus!
