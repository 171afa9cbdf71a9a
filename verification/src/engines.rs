//! Engine Selector: resolves which upstream engines to query for one
//! request, preferring a per-request cookie-supplied list and falling
//! back to the configured default list when no cookie came or when the
//! cookie selects no engine at all — the selection passed on to the
//! aggregator is never empty as long as the defaults are not.
//!
//! The cookie is a structured payload carrying `theme`, `colorscheme`
//! and `engines`, written in its canonical form
//! `{"theme":"…","colorscheme":"…","engines":["…","…"]}` with no
//! whitespace and no escapes. A payload that is not exactly of that
//! form fails the request; it is never silently replaced by defaults.

use vstd::prelude::*;
use crate::codec::{lemma_subrange_split, lemma_append_assoc};

verus! {

/// The quote byte, which canonical text fields may not contain.
pub const QUOTE: u8 = 34;

/// A canonical text field: free of quote bytes, so the closing quote of
/// its serialized form is the first quote after the opening one.
pub open spec fn text_wf(s: Seq<u8>) -> bool {
    forall|i: int| 0 <= i < s.len() ==> s[i] != QUOTE
}

/// Mathematical model of an engine-preference cookie.
pub struct CookieModel {
    pub theme: Seq<u8>,
    pub colorscheme: Seq<u8>,
    pub engines: Seq<Seq<u8>>,
}

/// A well-formed cookie: every text field free of quote bytes.
pub open spec fn cookie_wf(c: CookieModel) -> bool {
    &&& text_wf(c.theme)
    &&& text_wf(c.colorscheme)
    &&& forall|i: int| 0 <= i < c.engines.len() ==> text_wf(#[trigger] c.engines[i])
}

/// The decoded engine-preference cookie.
#[derive(Debug, Clone, PartialEq, Eq)]
pub struct CookiePrefs {
    pub theme: Vec<u8>,
    pub colorscheme: Vec<u8>,
    pub engines: Vec<Vec<u8>>,
}

/// The model of a list of engine names.
pub open spec fn names_model(v: Seq<Vec<u8>>) -> Seq<Seq<u8>> {
    v.map_values(|e: Vec<u8>| e@)
}

/// The model of a decoded cookie.
pub open spec fn cookie_model(c: CookiePrefs) -> CookieModel {
    CookieModel {
        theme: c.theme@,
        colorscheme: c.colorscheme@,
        engines: names_model(c.engines@),
    }
}

/// The byte sequence of `{"theme":`.
pub open spec fn lit_theme_key() -> Seq<u8> {
    seq![123u8, 34u8, 116u8, 104u8, 101u8, 109u8, 101u8, 34u8, 58u8]
}

/// The byte sequence of `,"colorscheme":`.
pub open spec fn lit_colorscheme_key() -> Seq<u8> {
    seq![
        44u8, 34u8, 99u8, 111u8, 108u8, 111u8, 114u8, 115u8, 99u8, 104u8, 101u8, 109u8, 101u8,
        34u8, 58u8,
    ]
}

/// The byte sequence of `,"engines":`.
pub open spec fn lit_engines_key() -> Seq<u8> {
    seq![44u8, 34u8, 101u8, 110u8, 103u8, 105u8, 110u8, 101u8, 115u8, 34u8, 58u8]
}

/// A quoted text field: `"…"`.
pub open spec fn spec_quoted(s: Seq<u8>) -> Seq<u8> {
    seq![QUOTE] + s + seq![QUOTE]
}

/// The inside of the engines array: quoted names joined by commas.
pub open spec fn spec_engines_inner(es: Seq<Seq<u8>>) -> Seq<u8>
    decreases es.len(),
{
    if es.len() == 0 {
        Seq::empty()
    } else if es.len() == 1 {
        spec_quoted(es[0])
    } else {
        spec_quoted(es[0]) + seq![44u8] + spec_engines_inner(es.drop_first())
    }
}

/// The engines array: `[…]`.
pub open spec fn spec_engines_json(es: Seq<Seq<u8>>) -> Seq<u8> {
    seq![91u8] + spec_engines_inner(es) + seq![93u8]
}

/// The canonical serialized form of a cookie.
pub open spec fn spec_cookie_json(c: CookieModel) -> Seq<u8> {
    lit_theme_key() + spec_quoted(c.theme) + lit_colorscheme_key() + spec_quoted(c.colorscheme)
        + lit_engines_key() + spec_engines_json(c.engines) + seq![125u8]
}

/// Whether `lit` occurs at position `i` of `s`.
pub open spec fn spec_expect_lit(s: Seq<u8>, i: int, lit: Seq<u8>) -> bool {
    0 <= i && i + lit.len() <= s.len() && s.subrange(i, i + lit.len()) == lit
}

/// The position of the first quote byte at or after `i`.
pub open spec fn scan_quote(s: Seq<u8>, i: int) -> Option<int>
    decreases s.len() - i,
{
    if i < 0 || i >= s.len() {
        None
    } else if s[i] == QUOTE {
        Some(i)
    } else {
        scan_quote(s, i + 1)
    }
}

/// Reads a quoted text field at `i`: an opening quote, the bytes up to
/// the first closing quote, and that quote.
pub open spec fn spec_parse_quoted(s: Seq<u8>, i: int) -> Option<(Seq<u8>, int)> {
    if 0 <= i && i < s.len() && s[i] == QUOTE {
        match scan_quote(s, i + 1) {
            Some(q) => if i + 1 <= q {
                Some((s.subrange(i + 1, q), q + 1))
            } else {
                None
            },
            None => None,
        }
    } else {
        None
    }
}

/// Reads the rest of a non-empty engines array starting at a quoted
/// name: names joined by commas, closed by `]`.
pub open spec fn spec_parse_engine_list(s: Seq<u8>, i: int) -> Option<(Seq<Seq<u8>>, int)>
    decreases s.len() - i,
{
    match spec_parse_quoted(s, i) {
        Some((e, j)) => if j < s.len() && s[j] == 44 {
            match spec_parse_engine_list(s, j + 1) {
                Some((rest, k)) => Some((seq![e] + rest, k)),
                None => None,
            }
        } else if j < s.len() && s[j] == 93 {
            Some((seq![e], j + 1))
        } else {
            None
        },
        None => None,
    }
}

/// Reads the engines array at `i`.
pub open spec fn spec_parse_engines(s: Seq<u8>, i: int) -> Option<(Seq<Seq<u8>>, int)> {
    if 0 <= i && i < s.len() && s[i] == 91 {
        if i + 1 < s.len() && s[i + 1] == 93 {
            Some((Seq::empty(), i + 2))
        } else {
            spec_parse_engine_list(s, i + 1)
        }
    } else {
        None
    }
}

/// The one reading of an engine-preference cookie; `None` is a
/// malformed payload.
pub open spec fn spec_parse_cookie(s: Seq<u8>) -> Option<CookieModel> {
    if !spec_expect_lit(s, 0, lit_theme_key()) {
        None
    } else {
        match spec_parse_quoted(s, 9) {
            Some((theme, i1)) => if !spec_expect_lit(s, i1, lit_colorscheme_key()) {
                None
            } else {
                match spec_parse_quoted(s, i1 + 15) {
                    Some((colorscheme, i2)) => if !spec_expect_lit(s, i2, lit_engines_key()) {
                        None
                    } else {
                        match spec_parse_engines(s, i2 + 11) {
                            Some((engines, i3)) => if i3 + 1 == s.len() && s[i3] == 125 {
                                Some(CookieModel { theme, colorscheme, engines })
                            } else {
                                None
                            },
                            None => None,
                        }
                    },
                    None => None,
                }
            },
            None => None,
        }
    }
}

/// Scanning for a quote skips a quote-free prefix.
proof fn lemma_scan_skip(s: Seq<u8>, i: int, k: int)
    requires
        0 <= i <= k <= s.len(),
        forall|m: int| i <= m < k ==> s[m] != QUOTE,
    ensures
        scan_quote(s, i) == scan_quote(s, k),
    decreases k - i,
{
    if i < k {
        lemma_scan_skip(s, i + 1, k);
    }
}

/// A quoted field reads back as the text it was built from.
proof fn lemma_parse_quoted_complete(s: Seq<u8>, i: int, t: Seq<u8>)
    requires
        0 <= i,
        text_wf(t),
        i + t.len() + 2 <= s.len(),
        s.subrange(i, i + t.len() + 2) == spec_quoted(t),
    ensures
        spec_parse_quoted(s, i) == Some((t, i + t.len() + 2)),
{
    let w = spec_quoted(t);
    let q = i + 1 + t.len() as int;
    assert(w.len() == t.len() + 2);
    assert(s[i] == QUOTE) by {
        assert(s.subrange(i, i + t.len() + 2)[0] == s[i]);
        assert(w[0] == QUOTE);
    }
    assert(s[q] == QUOTE) by {
        assert(s.subrange(i, i + t.len() + 2)[t.len() + 1 as int] == s[q]);
        assert(w[t.len() + 1 as int] == QUOTE);
    }
    assert forall|m: int| i + 1 <= m < q implies s[m] != QUOTE by {
        assert(s.subrange(i, i + t.len() + 2)[m - i] == s[m]);
        assert(w[m - i] == t[m - i - 1]);
    }
    lemma_scan_skip(s, i + 1, q);
    assert(scan_quote(s, q) == Some(q));
    assert forall|m: int| 0 <= m < t.len() implies s.subrange(i + 1, q)[m] == t[m] by {
        assert(s.subrange(i, i + t.len() + 2)[m + 1] == s[i + 1 + m]);
        assert(w[m + 1] == t[m]);
    }
    assert(s.subrange(i + 1, q) =~= t);
}

/// A serialized run of engine names followed by `]` reads back as those
/// names.
proof fn lemma_engine_list_complete(s: Seq<u8>, i: int, es: Seq<Seq<u8>>)
    requires
        es.len() >= 1,
        forall|k: int| 0 <= k < es.len() ==> text_wf(#[trigger] es[k]),
        0 <= i,
        i + spec_engines_inner(es).len() + 1 <= s.len(),
        s.subrange(i, i + spec_engines_inner(es).len() + 1)
            == spec_engines_inner(es) + seq![93u8],
    ensures
        spec_parse_engine_list(s, i)
            == Some((es, i + spec_engines_inner(es).len() + 1)),
    decreases es.len(),
{
    let inner = spec_engines_inner(es);
    let q0 = spec_quoted(es[0]);
    if es.len() == 1 {
        assert(inner == q0);
        lemma_subrange_split(s, i, q0, seq![93u8]);
        lemma_parse_quoted_complete(s, i, es[0]);
        let j = i + q0.len() as int;
        assert(s[j] == 93) by {
            assert(s.subrange(j, j + 1)[0] == s[j]);
        }
        assert(s[j] != 44) by {
            assert(s.subrange(j, j + 1)[0] == s[j]);
        }
        assert(seq![es[0]] =~= es);
    } else {
        let tail = es.drop_first();
        let it = spec_engines_inner(tail);
        assert(inner == q0 + seq![44u8] + it);
        lemma_append_assoc(q0 + seq![44u8], it, seq![93u8]);
        lemma_append_assoc(q0, seq![44u8], it + seq![93u8]);
        assert(inner + seq![93u8] == q0 + (seq![44u8] + (it + seq![93u8])));
        lemma_subrange_split(s, i, q0, seq![44u8] + (it + seq![93u8]));
        lemma_parse_quoted_complete(s, i, es[0]);
        let j = i + q0.len() as int;
        lemma_subrange_split(s, j, seq![44u8], it + seq![93u8]);
        assert(s[j] == 44) by {
            assert(s.subrange(j, j + 1)[0] == s[j]);
        }
        assert(forall|k: int| 0 <= k < tail.len() ==> text_wf(#[trigger] tail[k])) by {
            assert(forall|k: int| 0 <= k < tail.len() ==> tail[k] == es[k + 1]);
        }
        lemma_engine_list_complete(s, j + 1, tail);
        assert(seq![es[0]] + tail =~= es);
    }
}

/// Position just after the serialized theme field.
spec fn cpos1(c: CookieModel) -> int {
    9 + spec_quoted(c.theme).len() as int
}

/// Position just after the serialized colorscheme field.
spec fn cpos2(c: CookieModel) -> int {
    cpos1(c) + 15 + spec_quoted(c.colorscheme).len() as int
}

/// Position just after the serialized engines array.
spec fn cpos3(c: CookieModel) -> int {
    cpos2(c) + 11 + spec_engines_json(c.engines).len() as int
}

/// Where each piece of a serialized cookie lies in the whole.
#[verifier::rlimit(100)]
proof fn lemma_cookie_layout(c: CookieModel)
    ensures
        spec_expect_lit(spec_cookie_json(c), 0, lit_theme_key()),
        spec_cookie_json(c).subrange(9, cpos1(c)) == spec_quoted(c.theme),
        spec_expect_lit(spec_cookie_json(c), cpos1(c), lit_colorscheme_key()),
        spec_cookie_json(c).subrange(cpos1(c) + 15, cpos2(c)) == spec_quoted(c.colorscheme),
        spec_expect_lit(spec_cookie_json(c), cpos2(c), lit_engines_key()),
        spec_cookie_json(c).subrange(cpos2(c) + 11, cpos3(c)) == spec_engines_json(c.engines),
        cpos3(c) + 1 == spec_cookie_json(c).len(),
        spec_cookie_json(c)[cpos3(c)] == 125,
{
    let s = spec_cookie_json(c);
    let a1 = lit_theme_key();
    let q1 = spec_quoted(c.theme);
    let a2 = lit_colorscheme_key();
    let q2 = spec_quoted(c.colorscheme);
    let a3 = lit_engines_key();
    let ej = spec_engines_json(c.engines);
    let z = seq![125u8];
    lemma_append_assoc(a1 + q1 + a2 + q2 + a3, ej, z);
    lemma_append_assoc(a1 + q1 + a2 + q2, a3, ej + z);
    lemma_append_assoc(a1 + q1 + a2, q2, a3 + (ej + z));
    lemma_append_assoc(a1 + q1, a2, q2 + (a3 + (ej + z)));
    lemma_append_assoc(a1, q1, a2 + (q2 + (a3 + (ej + z))));
    assert(s == a1 + (q1 + (a2 + (q2 + (a3 + (ej + z))))));
    assert(s.subrange(0, s.len() as int) =~= s);
    lemma_subrange_split(s, 0, a1, q1 + (a2 + (q2 + (a3 + (ej + z)))));
    lemma_subrange_split(s, 9, q1, a2 + (q2 + (a3 + (ej + z))));
    lemma_subrange_split(s, cpos1(c), a2, q2 + (a3 + (ej + z)));
    lemma_subrange_split(s, cpos1(c) + 15, q2, a3 + (ej + z));
    lemma_subrange_split(s, cpos2(c), a3, ej + z);
    lemma_subrange_split(s, cpos2(c) + 11, ej, z);
    assert(s[cpos3(c)] == 125) by {
        assert(s.subrange(cpos3(c), s.len() as int)[0] == s[cpos3(c)]);
    }
}

/// The theme field of a serialized cookie reads back.
proof fn lemma_cookie_theme(c: CookieModel)
    requires
        cookie_wf(c),
    ensures
        spec_parse_quoted(spec_cookie_json(c), 9) == Some((c.theme, cpos1(c))),
{
    lemma_cookie_layout(c);
    lemma_parse_quoted_complete(spec_cookie_json(c), 9, c.theme);
}

/// The colorscheme field of a serialized cookie reads back.
proof fn lemma_cookie_colorscheme(c: CookieModel)
    requires
        cookie_wf(c),
    ensures
        spec_parse_quoted(spec_cookie_json(c), cpos1(c) + 15)
            == Some((c.colorscheme, cpos2(c))),
{
    lemma_cookie_layout(c);
    lemma_parse_quoted_complete(spec_cookie_json(c), cpos1(c) + 15, c.colorscheme);
}

/// The engines array of a serialized cookie reads back.
proof fn lemma_cookie_engines(c: CookieModel)
    requires
        cookie_wf(c),
    ensures
        spec_parse_engines(spec_cookie_json(c), cpos2(c) + 11) == Some((c.engines, cpos3(c))),
{
    let s = spec_cookie_json(c);
    let p = cpos2(c) + 11;
    let ej = spec_engines_json(c.engines);
    let inner = spec_engines_inner(c.engines);
    lemma_cookie_layout(c);
    assert(ej.len() == inner.len() + 2);
    assert(s[p] == 91) by {
        assert(s.subrange(p, cpos3(c))[0] == s[p]);
        assert(ej[0] == 91);
    }
    if c.engines.len() == 0 {
        assert(s[p + 1] == 93) by {
            assert(s.subrange(p, cpos3(c))[1] == s[p + 1]);
            assert(ej[1] == 93);
        }
    } else {
        assert(inner[0] == QUOTE) by {
            if c.engines.len() == 1 {
                assert(inner == spec_quoted(c.engines[0]));
            } else {
                assert(inner == spec_quoted(c.engines[0]) + seq![44u8]
                    + spec_engines_inner(c.engines.drop_first()));
            }
            assert(spec_quoted(c.engines[0])[0] == QUOTE);
        }
        assert(s[p + 1] == QUOTE) by {
            assert(s.subrange(p, cpos3(c))[1] == s[p + 1]);
            assert(ej[1] == inner[0]);
        }
        lemma_append_assoc(seq![91u8], inner, seq![93u8]);
        assert forall|m: int| 0 <= m < inner.len() + 1 implies s.subrange(
            p + 1,
            p + 1 + inner.len() as int + 1,
        )[m] == (inner + seq![93u8])[m] by {
            assert(s.subrange(p, cpos3(c))[1 + m] == s[p + 1 + m]);
            assert(ej[1 + m] == (inner + seq![93u8])[m]);
        }
        assert(s.subrange(p + 1, p + 1 + inner.len() as int + 1) =~= inner + seq![93u8]);
        lemma_engine_list_complete(s, p + 1, c.engines);
    }
}

/// Law: a well-formed cookie serialized in canonical form reads back
/// unchanged — the parser accepts exactly what the canonical form says.
pub proof fn lemma_cookie_round_trip(c: CookieModel)
    requires
        cookie_wf(c),
    ensures
        spec_parse_cookie(spec_cookie_json(c)) == Some(c),
{
    let s = spec_cookie_json(c);
    lemma_cookie_layout(c);
    lemma_cookie_theme(c);
    lemma_cookie_colorscheme(c);
    lemma_cookie_engines(c);
    assert(spec_parse_cookie(s) == Some(
        CookieModel { theme: c.theme, colorscheme: c.colorscheme, engines: c.engines },
    ));
    assert(CookieModel { theme: c.theme, colorscheme: c.colorscheme, engines: c.engines } == c);
}

/// Builds the `{"theme":` literal.
fn lit_theme_key_vec() -> (v: Vec<u8>)
    ensures
        v@ == lit_theme_key(),
{
    let mut v: Vec<u8> = Vec::new();
    v.push(123);
    v.push(34);
    v.push(116);
    v.push(104);
    v.push(101);
    v.push(109);
    v.push(101);
    v.push(34);
    v.push(58);
    assert(v@ =~= lit_theme_key());
    v
}

/// Builds the `,"colorscheme":` literal.
fn lit_colorscheme_key_vec() -> (v: Vec<u8>)
    ensures
        v@ == lit_colorscheme_key(),
{
    let mut v: Vec<u8> = Vec::new();
    v.push(44);
    v.push(34);
    v.push(99);
    v.push(111);
    v.push(108);
    v.push(111);
    v.push(114);
    v.push(115);
    v.push(99);
    v.push(104);
    v.push(101);
    v.push(109);
    v.push(101);
    v.push(34);
    v.push(58);
    assert(v@ =~= lit_colorscheme_key());
    v
}

/// Builds the `,"engines":` literal.
fn lit_engines_key_vec() -> (v: Vec<u8>)
    ensures
        v@ == lit_engines_key(),
{
    let mut v: Vec<u8> = Vec::new();
    v.push(44);
    v.push(34);
    v.push(101);
    v.push(110);
    v.push(103);
    v.push(105);
    v.push(110);
    v.push(101);
    v.push(115);
    v.push(34);
    v.push(58);
    assert(v@ =~= lit_engines_key());
    v
}

/// Whether `lit` occurs at position `i` of `s`.
fn has_lit_at(s: &Vec<u8>, i: usize, lit: &Vec<u8>) -> (r: bool)
    ensures
        r == spec_expect_lit(s@, i as int, lit@),
{
    if s.len() < lit.len() || i > s.len() - lit.len() {
        return false;
    }
    let mut k: usize = 0;
    while k < lit.len()
        invariant
            k <= lit.len(),
            i + lit.len() <= s.len(),
            forall|j: int| 0 <= j < k ==> s@[i + j] == lit@[j],
        decreases lit.len() - k,
    {
        if s[i + k] != lit[k] {
            assert(s@.subrange(i as int, i + lit@.len()) != lit@) by {
                assert(s@.subrange(i as int, i + lit@.len())[k as int] == s@[i + k]);
            }
            return false;
        }
        k = k + 1;
    }
    assert(s@.subrange(i as int, i + lit@.len()) =~= lit@);
    true
}

/// Finds the first quote byte at or after `i`.
fn scan_quote_from(s: &Vec<u8>, i: usize) -> (r: Option<usize>)
    ensures
        match r {
            Some(q) => scan_quote(s@, i as int) == Some(q as int) && i <= q < s@.len(),
            None => scan_quote(s@, i as int) is None,
        },
{
    let mut k: usize = i;
    while k < s.len()
        invariant
            i <= k,
            k <= s@.len() || (i > s@.len() && k == i),
            forall|m: int| i <= m < k ==> s@[m] != QUOTE,
        decreases s@.len() - k,
    {
        if s[k] == 34 {
            proof {
                lemma_scan_skip(s@, i as int, k as int);
            }
            return Some(k);
        }
        k = k + 1;
    }
    proof {
        if i <= s@.len() {
            lemma_scan_skip(s@, i as int, s@.len() as int);
        }
    }
    None
}

/// Reads a quoted text field at `i`.
fn parse_quoted_at(s: &Vec<u8>, i: usize) -> (r: Option<(Vec<u8>, usize)>)
    ensures
        match r {
            Some((t, j)) => {
                &&& spec_parse_quoted(s@, i as int) == Some((t@, j as int))
                &&& i < j <= s@.len()
            },
            None => spec_parse_quoted(s@, i as int) is None,
        },
{
    if i < s.len() && s[i] == 34 {
        match scan_quote_from(s, i + 1) {
            Some(q) => {
                let t = crate::codec::copy_range(s, i + 1, q);
                Some((t, q + 1))
            },
            None => None,
        }
    } else {
        None
    }
}

/// Reads the rest of a non-empty engines array at `i`.
fn parse_engine_list_at(s: &Vec<u8>, i: usize) -> (r: Option<(Vec<Vec<u8>>, usize)>)
    ensures
        match r {
            Some((v, j)) => {
                &&& spec_parse_engine_list(s@, i as int)
                    == Some((names_model(v@), j as int))
                &&& j <= s@.len()
            },
            None => spec_parse_engine_list(s@, i as int) is None,
        },
{
    let mut acc: Vec<Vec<u8>> = Vec::new();
    let mut pos: usize = i;
    loop
        invariant
            i <= pos,
            match spec_parse_engine_list(s@, pos as int) {
                Some((tail, e)) => spec_parse_engine_list(s@, i as int)
                    == Some((names_model(acc@) + tail, e)),
                None => spec_parse_engine_list(s@, i as int) is None,
            },
        decreases s@.len() + 2 - pos,
    {
        match parse_quoted_at(s, pos) {
            None => {
                return None;
            },
            Some((t, j)) => {
                if j < s.len() && s[j] == 44 {
                    proof {
                        let ghost mapped = names_model(acc@);
                        let ghost pushed = names_model(acc@.push(t));
                        assert(pushed =~= mapped + seq![t@]);
                        match spec_parse_engine_list(s@, j + 1) {
                            Some(p) => {
                                let (t2, e2) = p;
                                assert(spec_parse_engine_list(s@, pos as int)
                                    == Some((seq![t@] + t2, e2)));
                                assert(mapped + (seq![t@] + t2)
                                    =~= (mapped + seq![t@]) + t2);
                            },
                            None => {},
                        }
                    }
                    acc.push(t);
                    pos = j + 1;
                } else if j < s.len() && s[j] == 93 {
                    proof {
                        let ghost mapped = names_model(acc@);
                        assert(spec_parse_engine_list(s@, pos as int)
                            == Some((seq![t@], j + 1)));
                        assert(names_model(acc@.push(t)) =~= mapped + seq![t@]);
                    }
                    acc.push(t);
                    return Some((acc, j + 1));
                } else {
                    return None;
                }
            },
        }
    }
}

/// Reads the engines array at `i`.
fn parse_engines_at(s: &Vec<u8>, i: usize) -> (r: Option<(Vec<Vec<u8>>, usize)>)
    ensures
        match r {
            Some((v, j)) => {
                &&& spec_parse_engines(s@, i as int) == Some((names_model(v@), j as int))
                &&& j <= s@.len()
            },
            None => spec_parse_engines(s@, i as int) is None,
        },
{
    if i < s.len() && s[i] == 91 {
        if i + 1 < s.len() && s[i + 1] == 93 {
            let v: Vec<Vec<u8>> = Vec::new();
            assert(names_model(v@) =~= Seq::<Seq<u8>>::empty());
            Some((v, i + 2))
        } else {
            parse_engine_list_at(s, i + 1)
        }
    } else {
        None
    }
}

/// Decodes an engine-preference cookie payload, or reports that it is
/// malformed.
pub fn parse_cookie(s: &Vec<u8>) -> (r: Option<CookiePrefs>)
    ensures
        match r {
            Some(c) => spec_parse_cookie(s@) == Some(cookie_model(c)),
            None => spec_parse_cookie(s@) is None,
        },
{
    let k1 = lit_theme_key_vec();
    if !has_lit_at(s, 0, &k1) {
        return None;
    }
    let (theme, i1) = match parse_quoted_at(s, 9) {
        Some(p) => p,
        None => {
            return None;
        },
    };
    let k2 = lit_colorscheme_key_vec();
    assert(k2@.len() == 15);
    if !has_lit_at(s, i1, &k2) {
        return None;
    }
    let total: usize = s.len();
    assert(i1 + 15 <= total);
    let (colorscheme, i2) = match parse_quoted_at(s, i1 + 15) {
        Some(p) => p,
        None => {
            return None;
        },
    };
    let k3 = lit_engines_key_vec();
    assert(k3@.len() == 11);
    if !has_lit_at(s, i2, &k3) {
        return None;
    }
    assert(i2 + 11 <= total);
    let (engines, i3) = match parse_engines_at(s, i2 + 11) {
        Some(p) => p,
        None => {
            return None;
        },
    };
    if !(i3 < s.len() && s[i3] == 125 && i3 + 1 == s.len()) {
        return None;
    }
    Some(CookiePrefs { theme, colorscheme, engines })
}

/// Copies a list of engine names.
fn clone_names(v: &Vec<Vec<u8>>) -> (r: Vec<Vec<u8>>)
    ensures
        names_model(r@) == names_model(v@),
{
    let mut r: Vec<Vec<u8>> = Vec::new();
    let mut k: usize = 0;
    while k < v.len()
        invariant
            k <= v@.len(),
            names_model(r@) == names_model(v@).subrange(0, k as int),
        decreases v@.len() - k,
    {
        let cb = crate::results::clone_bytes(&v[k]);
        proof {
            assert(names_model(r@.push(cb)) =~= names_model(r@) + seq![cb@]);
            assert(names_model(v@).subrange(0, k as int) + seq![names_model(v@)[k as int]]
                =~= names_model(v@).subrange(0, k + 1 as int));
            assert(names_model(v@)[k as int] == v@[k as int]@);
        }
        r.push(cb);
        k = k + 1;
    }
    assert(names_model(v@).subrange(0, v@.len() as int) =~= names_model(v@));
    r
}

/// The engine list that a decoded cookie selects: its own list, unless
/// that list is empty, in which case the configured defaults stand in.
pub open spec fn spec_chosen_engines(from_cookie: Seq<Seq<u8>>, defaults: Seq<Seq<u8>>) -> Seq<
    Seq<u8>,
> {
    if from_cookie.len() == 0 {
        defaults
    } else {
        from_cookie
    }
}

/// Engine Selector: a present cookie must decode and its engine list is
/// used; an absent cookie, or one whose decoded list is empty, falls
/// back to the configured defaults, so the selection handed to the
/// aggregator is never empty while the defaults are not; a malformed
/// cookie fails the request rather than falling back.
pub fn resolve_engines(cookie: &Option<Vec<u8>>, defaults: &Vec<Vec<u8>>) -> (r: Option<
    Vec<Vec<u8>>,
>)
    ensures
        match *cookie {
            Option::None => r matches Some(es) && names_model(es@) == names_model(defaults@),
            Option::Some(raw) => match spec_parse_cookie(raw@) {
                Some(m) => r matches Some(es) && names_model(es@) == spec_chosen_engines(
                    m.engines,
                    names_model(defaults@),
                ),
                None => r is None,
            },
        },
        (defaults@.len() > 0 && r is Some) ==> r->Some_0@.len() > 0,
{
    match cookie {
        Option::None => {
            let es = clone_names(defaults);
            assert(es@.len() == names_model(es@).len());
            assert(defaults@.len() == names_model(defaults@).len());
            Some(es)
        },
        Option::Some(raw) => match parse_cookie(raw) {
            Some(prefs) => if prefs.engines.len() == 0 {
                let es = clone_names(defaults);
                assert(es@.len() == names_model(es@).len());
                assert(defaults@.len() == names_model(defaults@).len());
                Some(es)
            } else {
                Some(prefs.engines)
            },
            None => None,
        },
    }
}

/// Whatever the quote scan finds is the first quote.
proof fn lemma_scan_quote_sound(s: Seq<u8>, i: int)
    requires
        scan_quote(s, i) is Some,
    ensures
        ({
            let q = scan_quote(s, i)->Some_0;
            &&& i <= q < s.len()
            &&& s[q] == QUOTE
            &&& forall|m: int| i <= m < q ==> s[m] != QUOTE
        }),
    decreases s.len() - i,
{
    if !(i < 0 || i >= s.len()) && s[i] != QUOTE {
        lemma_scan_quote_sound(s, i + 1);
    }
}

/// Whatever a quoted field reads as, the window is its quoted form.
proof fn lemma_parse_quoted_sound(s: Seq<u8>, i: int)
    requires
        spec_parse_quoted(s, i) is Some,
    ensures
        ({
            let (t, j) = spec_parse_quoted(s, i)->Some_0;
            &&& 0 <= i < j <= s.len()
            &&& j == i + t.len() + 2
            &&& text_wf(t)
            &&& s.subrange(i, j) == spec_quoted(t)
        }),
{
    let (t, j) = spec_parse_quoted(s, i)->Some_0;
    let q = scan_quote(s, i + 1)->Some_0;
    lemma_scan_quote_sound(s, i + 1);
    assert(text_wf(t)) by {
        assert(forall|m: int| 0 <= m < t.len() ==> t[m] == s[i + 1 + m]);
    }
    assert(s.subrange(i, j) =~= spec_quoted(t));
}

/// Whatever an engine run reads as, the window is its joined form
/// closed by `]`.
proof fn lemma_engine_list_sound(s: Seq<u8>, i: int)
    requires
        spec_parse_engine_list(s, i) is Some,
    ensures
        ({
            let (es, k) = spec_parse_engine_list(s, i)->Some_0;
            &&& 0 <= i < k <= s.len()
            &&& k == i + spec_engines_inner(es).len() + 1
            &&& es.len() >= 1
            &&& forall|m: int| 0 <= m < es.len() ==> text_wf(#[trigger] es[m])
            &&& s.subrange(i, k) == spec_engines_inner(es) + seq![93u8]
        }),
    decreases s.len() - i,
{
    let (es, k) = spec_parse_engine_list(s, i)->Some_0;
    let (e, j) = spec_parse_quoted(s, i)->Some_0;
    lemma_parse_quoted_sound(s, i);
    if j < s.len() && s[j] == 44 {
        let (rest, k2) = spec_parse_engine_list(s, j + 1)->Some_0;
        lemma_engine_list_sound(s, j + 1);
        assert(es == seq![e] + rest);
        assert(es[0] == e);
        assert(es.drop_first() =~= rest);
        assert(es.len() >= 2);
        assert(spec_engines_inner(es) == spec_quoted(e) + seq![44u8]
            + spec_engines_inner(rest));
        assert(s.subrange(j, j + 1) =~= seq![44u8]);
        lemma_append_assoc(spec_quoted(e), seq![44u8],
            spec_engines_inner(rest) + seq![93u8]);
        lemma_append_assoc(spec_quoted(e) + seq![44u8], spec_engines_inner(rest),
            seq![93u8]);
        assert(s.subrange(i, k) =~= spec_quoted(e)
            + (seq![44u8] + (spec_engines_inner(rest) + seq![93u8])));
        assert(forall|m: int| 0 <= m < rest.len() ==> rest[m] == es[m + 1]);
    } else {
        assert(es == seq![e]);
        assert(es[0] == e);
        assert(spec_engines_inner(es) == spec_quoted(e));
        assert(s.subrange(j, j + 1) =~= seq![93u8]);
        assert(s.subrange(i, k) =~= spec_engines_inner(es) + seq![93u8]);
    }
}

/// Whatever the engines array reads as, the window is its array form.
proof fn lemma_parse_engines_sound(s: Seq<u8>, i: int)
    requires
        spec_parse_engines(s, i) is Some,
    ensures
        ({
            let (es, k) = spec_parse_engines(s, i)->Some_0;
            &&& 0 <= i < k <= s.len()
            &&& k == i + spec_engines_json(es).len()
            &&& forall|m: int| 0 <= m < es.len() ==> text_wf(#[trigger] es[m])
            &&& s.subrange(i, k) == spec_engines_json(es)
        }),
{
    let (es, k) = spec_parse_engines(s, i)->Some_0;
    if i + 1 < s.len() && s[i + 1] == 93 {
        assert(spec_engines_inner(es) == Seq::<u8>::empty());
        assert(s.subrange(i, k) =~= spec_engines_json(es));
    } else {
        lemma_engine_list_sound(s, i + 1);
        assert(s.subrange(i, i + 1) =~= seq![91u8]);
        lemma_append_assoc(seq![91u8], spec_engines_inner(es), seq![93u8]);
        assert(s.subrange(i, k) =~= seq![91u8]
            + (spec_engines_inner(es) + seq![93u8]));
    }
}

/// Law: the cookie grammar has one reading — whatever decodes is
/// exactly the canonical form of what it decodes to. Together with the
/// round trip this makes the accepted payloads exactly the canonical
/// cookies; everything else is malformed and fails the request.
pub proof fn lemma_cookie_decode_sound(s: Seq<u8>, c: CookieModel)
    requires
        spec_parse_cookie(s) == Some(c),
    ensures
        cookie_wf(c),
        spec_cookie_json(c) == s,
{
    let (theme, i1) = spec_parse_quoted(s, 9)->Some_0;
    let (colorscheme, i2) = spec_parse_quoted(s, i1 + 15)->Some_0;
    let (engines, i3) = spec_parse_engines(s, i2 + 11)->Some_0;
    lemma_parse_quoted_sound(s, 9);
    lemma_parse_quoted_sound(s, i1 + 15);
    lemma_parse_engines_sound(s, i2 + 11);
    assert(s.subrange(i3, i3 + 1) =~= seq![125u8]);
    assert(s.subrange(0, 9) == lit_theme_key());
    assert(s.subrange(i1, i1 + 15) == lit_colorscheme_key());
    assert(s.subrange(i2, i2 + 11) == lit_engines_key());
    assert(s.subrange(0, s.len() as int) =~= s);
    assert(spec_cookie_json(c) =~= s) by {
        assert(s =~= s.subrange(0, 9) + s.subrange(9, i1) + s.subrange(i1, i1 + 15)
            + s.subrange(i1 + 15, i2) + s.subrange(i2, i2 + 11) + s.subrange(i2 + 11, i3)
            + s.subrange(i3, i3 + 1));
    }
}

} // verus!
