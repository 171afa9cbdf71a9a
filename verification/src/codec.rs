//! Cache-payload codec: the serialized form of a `SearchResultSet` as it
//! is written to and read back from the cache store.
//!
//! The format frames every field with a four-byte big-endian length, so
//! each serialized set has exactly one reading: a count of items, the
//! items (title, url, description, engine, each length-framed), the two
//! style fields, and one byte for the empty-result flag.

use vstd::prelude::*;
use crate::results::{SearchItem, SearchResultSet, Style, ItemModel, SetModel, StyleModel,
    item_model, set_model};
use crate::text::push_all;

verus! {

/// Four-byte big-endian rendering of `n`.
pub open spec fn spec_len4(n: nat) -> Seq<u8> {
    seq![
        (n / 0x1000000 % 0x100) as u8,
        (n / 0x10000 % 0x100) as u8,
        (n / 0x100 % 0x100) as u8,
        (n % 0x100) as u8,
    ]
}

/// A length-framed byte field: four-byte length, then the bytes.
pub open spec fn spec_enc_bytes(b: Seq<u8>) -> Seq<u8> {
    spec_len4(b.len()) + b
}

/// A serialized result item: its four fields, each length-framed.
pub open spec fn spec_enc_item(it: ItemModel) -> Seq<u8> {
    spec_enc_bytes(it.title) + spec_enc_bytes(it.url) + spec_enc_bytes(it.description)
        + spec_enc_bytes(it.engine)
}

/// The serialized items, in order.
pub open spec fn spec_enc_items(items: Seq<ItemModel>) -> Seq<u8>
    decreases items.len(),
{
    if items.len() == 0 {
        Seq::empty()
    } else {
        spec_enc_item(items[0]) + spec_enc_items(items.drop_first())
    }
}

/// One byte for the empty-result flag.
pub open spec fn spec_enc_bool(b: bool) -> Seq<u8> {
    if b {
        seq![1u8]
    } else {
        seq![0u8]
    }
}

/// The serialized form of a whole result set.
pub open spec fn spec_encode_set(m: SetModel) -> Seq<u8> {
    spec_len4(m.results.len()) + spec_enc_items(m.results) + spec_enc_bytes(m.style.theme)
        + spec_enc_bytes(m.style.colorscheme) + spec_enc_bool(m.is_empty)
}

/// A field short enough for a four-byte length frame.
pub open spec fn text4_wf(b: Seq<u8>) -> bool {
    b.len() < 0x100000000
}

/// Every field of the item fits its length frame.
pub open spec fn item_wf(it: ItemModel) -> bool {
    text4_wf(it.title) && text4_wf(it.url) && text4_wf(it.description) && text4_wf(it.engine)
}

/// The whole set fits the format: item count and every field below the
/// four-byte length limit.
pub open spec fn set_wf(m: SetModel) -> bool {
    &&& m.results.len() < 0x100000000
    &&& forall|i: int| 0 <= i < m.results.len() ==> item_wf(#[trigger] m.results[i])
    &&& text4_wf(m.style.theme)
    &&& text4_wf(m.style.colorscheme)
}

/// The big-endian bytes of a value below 2^32 read back as that value.
proof fn lemma_len4_value(n: u64)
    requires
        n < 0x100000000,
    ensures
        (n / 0x1000000 % 0x100) * 0x1000000 + (n / 0x10000 % 0x100) * 0x10000
            + (n / 0x100 % 0x100) * 0x100 + (n % 0x100) == n,
{
    assert((n / 0x1000000 % 0x100) * 0x1000000 + (n / 0x10000 % 0x100) * 0x10000
        + (n / 0x100 % 0x100) * 0x100 + (n % 0x100) == n) by (bit_vector)
        requires
            n < 0x100000000,
    ;
}

/// Splitting an equality of a subrange with a concatenation into the two
/// halves' subranges.
pub proof fn lemma_subrange_split(s: Seq<u8>, i: int, a: Seq<u8>, b: Seq<u8>)
    requires
        0 <= i,
        i + a.len() + b.len() <= s.len(),
        s.subrange(i, i + a.len() + b.len()) == a + b,
    ensures
        s.subrange(i, i + a.len()) == a,
        s.subrange(i + a.len(), i + a.len() + b.len()) == b,
{
    let ab = a + b;
    assert forall|k: int| 0 <= k < a.len() implies s[i + k] == a[k] by {
        assert(s.subrange(i, i + a.len() + b.len())[k] == ab[k]);
    }
    assert forall|k: int| 0 <= k < b.len() implies s[i + a.len() + k] == b[k] by {
        assert(s.subrange(i, i + a.len() + b.len())[a.len() + k] == ab[a.len() + k]);
    }
    assert(s.subrange(i, i + a.len()) =~= a);
    assert(s.subrange(i + a.len(), i + a.len() + b.len()) =~= b);
}

/// Concatenating the empty sequence on either side changes nothing.
pub(crate) proof fn lemma_append_empty(a: Seq<u8>)
    ensures
        a + Seq::<u8>::empty() == a,
        Seq::<u8>::empty() + a == a,
{
    assert(a + Seq::<u8>::empty() =~= a);
    assert(Seq::<u8>::empty() + a =~= a);
}

/// Concatenation of byte sequences is associative.
pub(crate) proof fn lemma_append_assoc(a: Seq<u8>, b: Seq<u8>, c: Seq<u8>)
    ensures
        a + (b + c) == (a + b) + c,
{
    assert(a + (b + c) =~= (a + b) + c);
}

/// Serializing one more item appends its encoding.
proof fn lemma_enc_items_snoc(items: Seq<ItemModel>, x: ItemModel)
    ensures
        spec_enc_items(items.push(x)) == spec_enc_items(items) + spec_enc_item(x),
    decreases items.len(),
{
    if items.len() == 0 {
        assert(items.push(x)[0] == x);
        assert(items.push(x).drop_first() =~= Seq::<ItemModel>::empty());
        assert(spec_enc_items(items.push(x)) == spec_enc_item(x)
            + spec_enc_items(Seq::<ItemModel>::empty()));
        lemma_append_empty(spec_enc_item(x));
    } else {
        let tail = items.drop_first();
        assert(items.push(x).drop_first() =~= tail.push(x));
        lemma_enc_items_snoc(tail, x);
        assert(items.push(x)[0] == items[0]);
        assert(spec_enc_items(items.push(x)) == spec_enc_item(items[0])
            + (spec_enc_items(tail) + spec_enc_item(x)));
        lemma_append_assoc(spec_enc_item(items[0]), spec_enc_items(tail), spec_enc_item(x));
        assert(spec_enc_items(items) == spec_enc_item(items[0]) + spec_enc_items(tail));
    }
}

/// Appends the four-byte big-endian rendering of `n`.
fn push_len4(out: &mut Vec<u8>, n: usize)
    requires
        n < 0x100000000,
    ensures
        final(out)@ == old(out)@ + spec_len4(n as nat),
{
    out.push((n / 0x1000000 % 0x100) as u8);
    out.push((n / 0x10000 % 0x100) as u8);
    out.push((n / 0x100 % 0x100) as u8);
    out.push((n % 0x100) as u8);
    assert(out@ =~= old(out)@ + spec_len4(n as nat));
}

/// Appends one length-framed byte field.
fn push_enc_bytes(out: &mut Vec<u8>, b: &Vec<u8>)
    requires
        text4_wf(b@),
    ensures
        final(out)@ == old(out)@ + spec_enc_bytes(b@),
{
    push_len4(out, b.len());
    push_all(out, b);
    assert(out@ =~= old(out)@ + spec_enc_bytes(b@));
}

/// Appends one serialized item.
fn push_enc_item(out: &mut Vec<u8>, it: &SearchItem)
    requires
        item_wf(item_model(*it)),
    ensures
        final(out)@ == old(out)@ + spec_enc_item(item_model(*it)),
{
    push_enc_bytes(out, &it.title);
    push_enc_bytes(out, &it.url);
    push_enc_bytes(out, &it.description);
    push_enc_bytes(out, &it.engine);
    assert(out@ =~= old(out)@ + spec_enc_item(item_model(*it)));
}

/// Whether every field of one item fits its length frame.
fn item_fits(it: &SearchItem) -> (r: bool)
    ensures
        r == item_wf(item_model(*it)),
{
    let limit: u64 = 0x100000000;
    if it.title.len() as u64 >= limit || it.url.len() as u64 >= limit
        || it.description.len() as u64 >= limit || it.engine.len() as u64 >= limit {
        assert(!item_wf(item_model(*it)));
        false
    } else {
        assert(item_wf(item_model(*it)));
        true
    }
}

/// Whether every field of the set fits the four-byte length frames.
fn set_fits(s: &SearchResultSet) -> (r: bool)
    ensures
        r == set_wf(set_model(*s)),
{
    let limit: u64 = 0x100000000;
    if s.results.len() as u64 >= limit || s.style.theme.len() as u64 >= limit
        || s.style.colorscheme.len() as u64 >= limit {
        return false;
    }
    let mut i: usize = 0;
    while i < s.results.len()
        invariant
            i <= s.results.len(),
            s.results.len() < 0x100000000,
            s.style.theme.len() < 0x100000000,
            s.style.colorscheme.len() < 0x100000000,
            forall|j: int| 0 <= j < i ==> item_wf(#[trigger] set_model(*s).results[j]),
        decreases s.results.len() - i,
    {
        let it = &s.results[i];
        assert(set_model(*s).results[i as int] == item_model(*it));
        if !item_fits(it) {
            return false;
        }
        i = i + 1;
    }
    true
}

/// Serializes a result set for the cache, or reports that a field is too
/// long for the format.
pub fn encode_set(s: &SearchResultSet) -> (r: Option<Vec<u8>>)
    ensures
        match r {
            Some(v) => set_wf(set_model(*s)) && v@ == spec_encode_set(set_model(*s)),
            None => !set_wf(set_model(*s)),
        },
{
    if !set_fits(s) {
        return None;
    }
    let ghost m = set_model(*s);
    let mut out: Vec<u8> = Vec::new();
    push_len4(&mut out, s.results.len());
    let mut i: usize = 0;
    while i < s.results.len()
        invariant
            i <= s.results.len(),
            set_wf(m),
            m == set_model(*s),
            out@ == spec_len4(m.results.len()) + spec_enc_items(m.results.subrange(0, i as int)),
        decreases s.results.len() - i,
    {
        assert(m.results[i as int] == item_model(s.results@[i as int]));
        push_enc_item(&mut out, &s.results[i]);
        proof {
            lemma_enc_items_snoc(m.results.subrange(0, i as int), m.results[i as int]);
            assert(m.results.subrange(0, i + 1 as int)
                =~= m.results.subrange(0, i as int).push(m.results[i as int]));
        }
        i = i + 1;
    }
    assert(m.results.subrange(0, s.results@.len() as int) =~= m.results);
    push_enc_bytes(&mut out, &s.style.theme);
    push_enc_bytes(&mut out, &s.style.colorscheme);
    if s.is_empty {
        out.push(1);
    } else {
        out.push(0);
    }
    assert(out@ =~= spec_encode_set(m));
    Some(out)
}

/// Reads a four-byte big-endian length at `i`.
pub open spec fn spec_read_len4(s: Seq<u8>, i: int) -> Option<(nat, int)> {
    if 0 <= i && i + 4 <= s.len() {
        Some(
            (
                (s[i] as nat) * 0x1000000 + (s[i + 1] as nat) * 0x10000 + (s[i + 2] as nat)
                    * 0x100 + (s[i + 3] as nat),
                i + 4,
            ),
        )
    } else {
        None
    }
}

/// Reads one length-framed byte field at `i`.
pub open spec fn spec_parse_bytes(s: Seq<u8>, i: int) -> Option<(Seq<u8>, int)> {
    match spec_read_len4(s, i) {
        Some((n, j)) => if j + n <= s.len() {
            Some((s.subrange(j, j + n), j + n))
        } else {
            None
        },
        None => None,
    }
}

/// Reads one serialized item at `i`.
pub open spec fn spec_parse_item(s: Seq<u8>, i: int) -> Option<(ItemModel, int)> {
    match spec_parse_bytes(s, i) {
        Some((title, i1)) => match spec_parse_bytes(s, i1) {
            Some((url, i2)) => match spec_parse_bytes(s, i2) {
                Some((description, i3)) => match spec_parse_bytes(s, i3) {
                    Some((engine, i4)) => Some(
                        (ItemModel { title, url, description, engine }, i4),
                    ),
                    None => None,
                },
                None => None,
            },
            None => None,
        },
        None => None,
    }
}

/// Reads `count` serialized items at `i`.
pub open spec fn spec_parse_items(s: Seq<u8>, i: int, count: nat) -> Option<(Seq<ItemModel>, int)>
    decreases count,
{
    if count == 0 {
        Some((Seq::empty(), i))
    } else {
        match spec_parse_item(s, i) {
            Some((it, j)) => match spec_parse_items(s, j, (count - 1) as nat) {
                Some((rest, e)) => Some((seq![it] + rest, e)),
                None => None,
            },
            None => None,
        }
    }
}

/// Reads the empty-result flag at `i`.
pub open spec fn spec_parse_bool(s: Seq<u8>, i: int) -> Option<(bool, int)> {
    if 0 <= i && i < s.len() && (s[i] == 0 || s[i] == 1) {
        Some((s[i] == 1, i + 1))
    } else {
        None
    }
}

/// The one reading of a serialized result set: item count, items, the
/// two style fields, the empty flag, and nothing after them.
pub open spec fn spec_decode_set(s: Seq<u8>) -> Option<SetModel> {
    match spec_read_len4(s, 0) {
        Some((count, i1)) => match spec_parse_items(s, i1, count) {
            Some((results, i2)) => match spec_parse_bytes(s, i2) {
                Some((theme, i3)) => match spec_parse_bytes(s, i3) {
                    Some((colorscheme, i4)) => match spec_parse_bool(s, i4) {
                        Some((is_empty, i5)) => if i5 == s.len() {
                            Some(
                                SetModel {
                                    results,
                                    style: StyleModel { theme, colorscheme },
                                    is_empty,
                                },
                            )
                        } else {
                            None
                        },
                        None => None,
                    },
                    None => None,
                },
                None => None,
            },
            None => None,
        },
        None => None,
    }
}

/// A four-byte length frame reads back as the length it was built from.
proof fn lemma_read_len4_complete(s: Seq<u8>, i: int, n: nat)
    requires
        0 <= i,
        n < 0x100000000,
        i + 4 <= s.len(),
        s.subrange(i, i + 4) == spec_len4(n),
    ensures
        spec_read_len4(s, i) == Some((n, i + 4)),
{
    assert(s[i] == spec_len4(n)[0]) by {
        assert(s.subrange(i, i + 4)[0] == s[i]);
    }
    assert(s[i + 1] == spec_len4(n)[1]) by {
        assert(s.subrange(i, i + 4)[1] == s[i + 1]);
    }
    assert(s[i + 2] == spec_len4(n)[2]) by {
        assert(s.subrange(i, i + 4)[2] == s[i + 2]);
    }
    assert(s[i + 3] == spec_len4(n)[3]) by {
        assert(s.subrange(i, i + 4)[3] == s[i + 3]);
    }
    lemma_len4_value(n as u64);
}

/// A length-framed field reads back as the bytes it was built from.
proof fn lemma_parse_bytes_complete(s: Seq<u8>, i: int, b: Seq<u8>)
    requires
        0 <= i,
        text4_wf(b),
        i + 4 + b.len() <= s.len(),
        s.subrange(i, i + 4 + b.len()) == spec_enc_bytes(b),
    ensures
        spec_parse_bytes(s, i) == Some((b, i + 4 + b.len())),
{
    assert(spec_len4(b.len()).len() == 4);
    lemma_subrange_split(s, i, spec_len4(b.len()), b);
    lemma_read_len4_complete(s, i, b.len());
}

/// A serialized item reads back as the item it was built from.
proof fn lemma_parse_item_complete(s: Seq<u8>, i: int, it: ItemModel)
    requires
        0 <= i,
        item_wf(it),
        i + spec_enc_item(it).len() <= s.len(),
        s.subrange(i, i + spec_enc_item(it).len()) == spec_enc_item(it),
    ensures
        spec_parse_item(s, i) == Some((it, i + spec_enc_item(it).len())),
{
    let t = spec_enc_bytes(it.title);
    let u = spec_enc_bytes(it.url);
    let d = spec_enc_bytes(it.description);
    let e = spec_enc_bytes(it.engine);
    lemma_append_assoc(t + u, d, e);
    lemma_append_assoc(t, u, d + e);
    assert(spec_enc_item(it) == t + (u + (d + e)));
    lemma_subrange_split(s, i, t, u + (d + e));
    lemma_parse_bytes_complete(s, i, it.title);
    let i1 = i + t.len();
    lemma_append_assoc(u, d, e);
    lemma_subrange_split(s, i1, u, d + e);
    lemma_parse_bytes_complete(s, i1, it.url);
    let i2 = i1 + u.len();
    lemma_subrange_split(s, i2, d, e);
    lemma_parse_bytes_complete(s, i2, it.description);
    let i3 = i2 + d.len();
    lemma_parse_bytes_complete(s, i3, it.engine);
    assert(ItemModel {
        title: it.title,
        url: it.url,
        description: it.description,
        engine: it.engine,
    } == it);
}

/// A run of serialized items reads back as the items it was built from.
proof fn lemma_parse_items_complete(s: Seq<u8>, i: int, items: Seq<ItemModel>)
    requires
        0 <= i,
        forall|k: int| 0 <= k < items.len() ==> item_wf(#[trigger] items[k]),
        i + spec_enc_items(items).len() <= s.len(),
        s.subrange(i, i + spec_enc_items(items).len()) == spec_enc_items(items),
    ensures
        spec_parse_items(s, i, items.len()) == Some((items, i + spec_enc_items(items).len())),
    decreases items.len(),
{
    if items.len() == 0 {
        assert(spec_parse_items(s, i, 0) == Some((Seq::<ItemModel>::empty(), i)));
        assert(items =~= Seq::<ItemModel>::empty());
    } else {
        let head = spec_enc_item(items[0]);
        let tail = items.drop_first();
        assert(spec_enc_items(items) == head + spec_enc_items(tail));
        lemma_subrange_split(s, i, head, spec_enc_items(tail));
        lemma_parse_item_complete(s, i, items[0]);
        let j = i + head.len();
        assert(forall|k: int| 0 <= k < tail.len() ==> item_wf(#[trigger] tail[k])) by {
            assert(forall|k: int| 0 <= k < tail.len() ==> tail[k] == items[k + 1]);
        }
        lemma_parse_items_complete(s, j, tail);
        assert(seq![items[0]] + tail =~= items);
    }
}

/// Where each piece of a serialized set lies in the whole.
proof fn lemma_encode_layout(m: SetModel)
    requires
        set_wf(m),
    ensures
        spec_encode_set(m).subrange(0, 4) == spec_len4(m.results.len()),
        spec_encode_set(m).subrange(4, 4 + spec_enc_items(m.results).len() as int)
            == spec_enc_items(m.results),
        spec_encode_set(m).subrange(
            4 + spec_enc_items(m.results).len() as int,
            4 + spec_enc_items(m.results).len() as int + spec_enc_bytes(m.style.theme).len() as int,
        ) == spec_enc_bytes(m.style.theme),
        spec_encode_set(m).subrange(
            4 + spec_enc_items(m.results).len() as int + spec_enc_bytes(m.style.theme).len() as int,
            4 + spec_enc_items(m.results).len() as int + spec_enc_bytes(m.style.theme).len() as int
                + spec_enc_bytes(m.style.colorscheme).len() as int,
        ) == spec_enc_bytes(m.style.colorscheme),
        spec_encode_set(m).subrange(
            4 + spec_enc_items(m.results).len() as int + spec_enc_bytes(m.style.theme).len() as int
                + spec_enc_bytes(m.style.colorscheme).len() as int,
            spec_encode_set(m).len() as int,
        ) == spec_enc_bool(m.is_empty),
        spec_encode_set(m).len() == 5 + spec_enc_items(m.results).len()
            + spec_enc_bytes(m.style.theme).len() + spec_enc_bytes(m.style.colorscheme).len(),
{
    let s = spec_encode_set(m);
    let a = spec_len4(m.results.len());
    let b = spec_enc_items(m.results);
    let c = spec_enc_bytes(m.style.theme);
    let d = spec_enc_bytes(m.style.colorscheme);
    let e = spec_enc_bool(m.is_empty);
    lemma_append_assoc(a + b + c, d, e);
    lemma_append_assoc(a + b, c, d + e);
    lemma_append_assoc(a, b, c + (d + e));
    assert(s == a + (b + (c + (d + e))));
    assert(s.subrange(0, s.len() as int) =~= s);
    lemma_subrange_split(s, 0, a, b + (c + (d + e)));
    lemma_append_assoc(b, c, d + e);
    lemma_subrange_split(s, 4, b, c + (d + e));
    lemma_append_assoc(c, d, e);
    lemma_subrange_split(s, 4 + b.len() as int, c, d + e);
    lemma_subrange_split(s, 4 + b.len() as int + c.len() as int, d, e);
}

/// Position of the theme field inside a serialized set.
spec fn pos_theme(m: SetModel) -> int {
    4 + spec_enc_items(m.results).len() as int
}

/// Position of the colorscheme field inside a serialized set.
spec fn pos_colorscheme(m: SetModel) -> int {
    pos_theme(m) + spec_enc_bytes(m.style.theme).len() as int
}

/// Position of the empty-result flag inside a serialized set.
spec fn pos_flag(m: SetModel) -> int {
    pos_colorscheme(m) + spec_enc_bytes(m.style.colorscheme).len() as int
}

/// The item count of a serialized set reads back.
proof fn lemma_rt_count(m: SetModel)
    requires
        set_wf(m),
    ensures
        spec_read_len4(spec_encode_set(m), 0) == Some((m.results.len(), 4int)),
{
    lemma_encode_layout(m);
    lemma_read_len4_complete(spec_encode_set(m), 0, m.results.len());
}

/// The items of a serialized set read back.
proof fn lemma_rt_items(m: SetModel)
    requires
        set_wf(m),
    ensures
        spec_parse_items(spec_encode_set(m), 4, m.results.len())
            == Some((m.results, pos_theme(m))),
{
    lemma_encode_layout(m);
    lemma_parse_items_complete(spec_encode_set(m), 4, m.results);
}

/// The theme field of a serialized set reads back.
proof fn lemma_rt_theme(m: SetModel)
    requires
        set_wf(m),
    ensures
        spec_parse_bytes(spec_encode_set(m), pos_theme(m))
            == Some((m.style.theme, pos_colorscheme(m))),
{
    lemma_encode_layout(m);
    lemma_parse_bytes_complete(spec_encode_set(m), pos_theme(m), m.style.theme);
}

/// The colorscheme field of a serialized set reads back.
proof fn lemma_rt_colorscheme(m: SetModel)
    requires
        set_wf(m),
    ensures
        spec_parse_bytes(spec_encode_set(m), pos_colorscheme(m))
            == Some((m.style.colorscheme, pos_flag(m))),
{
    lemma_encode_layout(m);
    lemma_parse_bytes_complete(spec_encode_set(m), pos_colorscheme(m), m.style.colorscheme);
}

/// The empty-result flag of a serialized set reads back, and nothing
/// follows it.
proof fn lemma_rt_flag(m: SetModel)
    requires
        set_wf(m),
    ensures
        spec_parse_bool(spec_encode_set(m), pos_flag(m))
            == Some((m.is_empty, pos_flag(m) + 1)),
        pos_flag(m) + 1 == spec_encode_set(m).len(),
{
    let s = spec_encode_set(m);
    let e = spec_enc_bool(m.is_empty);
    lemma_encode_layout(m);
    assert(s[pos_flag(m)] == e[0]) by {
        assert(s.subrange(pos_flag(m), s.len() as int)[0] == s[pos_flag(m)]);
    }
}

/// Law: a result set serialized for the cache reads back unchanged, so a
/// later hit renders exactly what a direct post-enrichment rendering
/// would have shown.
pub proof fn lemma_set_round_trip(m: SetModel)
    requires
        set_wf(m),
    ensures
        spec_decode_set(spec_encode_set(m)) == Some(m),
{
    let s = spec_encode_set(m);
    lemma_rt_count(m);
    lemma_rt_items(m);
    lemma_rt_theme(m);
    lemma_rt_colorscheme(m);
    lemma_rt_flag(m);
    assert(spec_decode_set(s) == Some(
        SetModel {
            results: m.results,
            style: StyleModel { theme: m.style.theme, colorscheme: m.style.colorscheme },
            is_empty: m.is_empty,
        },
    ));
    assert(SetModel {
        results: m.results,
        style: StyleModel { theme: m.style.theme, colorscheme: m.style.colorscheme },
        is_empty: m.is_empty,
    } == m);
}

/// Reads the four-byte big-endian length at `i`.
fn read_len4(s: &Vec<u8>, i: usize) -> (r: Option<(usize, usize)>)
    ensures
        match r {
            Some((n, j)) => {
                &&& spec_read_len4(s@, i as int) == Some((n as nat, j as int))
                &&& n < 0x100000000
                &&& j == i + 4
                &&& j <= s@.len()
            },
            None => spec_read_len4(s@, i as int) is None,
        },
{
    if s.len() >= 4 && i <= s.len() - 4 {
        let v: u64 = (s[i] as u64) * 0x1000000 + (s[i + 1] as u64) * 0x10000
            + (s[i + 2] as u64) * 0x100 + (s[i + 3] as u64);
        Some((v as usize, i + 4))
    } else {
        None
    }
}

/// Copies `s[from..to]` into a fresh buffer.
pub(crate) fn copy_range(s: &Vec<u8>, from: usize, to: usize) -> (r: Vec<u8>)
    requires
        from <= to <= s@.len(),
    ensures
        r@ == s@.subrange(from as int, to as int),
{
    let mut r: Vec<u8> = Vec::new();
    let mut k: usize = from;
    while k < to
        invariant
            from <= k <= to <= s@.len(),
            r@ == s@.subrange(from as int, k as int),
        decreases to - k,
    {
        r.push(s[k]);
        assert(r@ =~= s@.subrange(from as int, k + 1 as int));
        k = k + 1;
    }
    r
}

/// Reads one length-framed byte field at `i`.
fn parse_bytes_at(s: &Vec<u8>, i: usize) -> (r: Option<(Vec<u8>, usize)>)
    ensures
        match r {
            Some((v, j)) => {
                &&& spec_parse_bytes(s@, i as int) == Some((v@, j as int))
                &&& j <= s@.len()
            },
            None => spec_parse_bytes(s@, i as int) is None,
        },
{
    match read_len4(s, i) {
        Some((n, j)) => {
            if n <= s.len() - j {
                let v = copy_range(s, j, j + n);
                Some((v, j + n))
            } else {
                None
            }
        },
        None => None,
    }
}

/// Reads one serialized item at `i`.
fn parse_item_at(s: &Vec<u8>, i: usize) -> (r: Option<(SearchItem, usize)>)
    ensures
        match r {
            Some((it, j)) => {
                &&& spec_parse_item(s@, i as int) == Some((item_model(it), j as int))
                &&& j <= s@.len()
            },
            None => spec_parse_item(s@, i as int) is None,
        },
{
    let (title, i1) = match parse_bytes_at(s, i) {
        Some(p) => p,
        None => {
            return None;
        },
    };
    let (url, i2) = match parse_bytes_at(s, i1) {
        Some(p) => p,
        None => {
            return None;
        },
    };
    let (description, i3) = match parse_bytes_at(s, i2) {
        Some(p) => p,
        None => {
            return None;
        },
    };
    let (engine, i4) = match parse_bytes_at(s, i3) {
        Some(p) => p,
        None => {
            return None;
        },
    };
    Some((SearchItem { title, url, description, engine }, i4))
}

/// Reads `count` serialized items at `i`.
fn parse_items_at(s: &Vec<u8>, i: usize, count: usize) -> (r: Option<(Vec<SearchItem>, usize)>)
    requires
        i <= s@.len(),
    ensures
        match r {
            Some((v, j)) => {
                &&& spec_parse_items(s@, i as int, count as nat)
                    == Some((v@.map_values(|it: SearchItem| item_model(it)), j as int))
                &&& j <= s@.len()
            },
            None => spec_parse_items(s@, i as int, count as nat) is None,
        },
{
    let mut acc: Vec<SearchItem> = Vec::new();
    let mut pos: usize = i;
    let mut k: usize = 0;
    while k < count
        invariant
            k <= count,
            pos <= s@.len(),
            match spec_parse_items(s@, pos as int, (count - k) as nat) {
                Some((tail, e)) => spec_parse_items(s@, i as int, count as nat)
                    == Some((acc@.map_values(|it: SearchItem| item_model(it)) + tail, e)),
                None => spec_parse_items(s@, i as int, count as nat) is None,
            },
        decreases count - k,
    {
        match parse_item_at(s, pos) {
            Some((it, j)) => {
                proof {
                    let ghost mapped = acc@.map_values(|x: SearchItem| item_model(x));
                    let ghost pushed = acc@.push(it).map_values(|x: SearchItem| item_model(x));
                    assert(pushed =~= mapped + seq![item_model(it)]);
                    match spec_parse_items(s@, j as int, (count - k - 1) as nat) {
                        Some(p) => {
                            let (t2, e2) = p;
                            assert(spec_parse_items(s@, pos as int, (count - k) as nat)
                                == Some((seq![item_model(it)] + t2, e2)));
                            assert(mapped + (seq![item_model(it)] + t2)
                                =~= (mapped + seq![item_model(it)]) + t2);
                        },
                        None => {},
                    }
                }
                acc.push(it);
                pos = j;
            },
            None => {
                return None;
            },
        }
        k = k + 1;
    }
    proof {
        let ghost mapped = acc@.map_values(|x: SearchItem| item_model(x));
        assert(spec_parse_items(s@, pos as int, 0) == Some((Seq::<ItemModel>::empty(), pos as int)));
        assert(mapped + Seq::<ItemModel>::empty() =~= mapped);
    }
    Some((acc, pos))
}

/// Reads the empty-result flag at `i`.
fn parse_bool_at(s: &Vec<u8>, i: usize) -> (r: Option<(bool, usize)>)
    ensures
        match r {
            Some((b, j)) => spec_parse_bool(s@, i as int) == Some((b, j as int)),
            None => spec_parse_bool(s@, i as int) is None,
        },
{
    if i < s.len() && (s[i] == 0 || s[i] == 1) {
        Some((s[i] == 1, i + 1))
    } else {
        None
    }
}

/// Deserializes a cached payload back into a result set; rejects any
/// byte string that is not exactly the serialized form of one set.
pub fn decode_set(s: &Vec<u8>) -> (r: Option<SearchResultSet>)
    ensures
        match r {
            Some(v) => spec_decode_set(s@) == Some(set_model(v)),
            None => spec_decode_set(s@) is None,
        },
{
    let (count, i1) = match read_len4(s, 0) {
        Some(p) => p,
        None => {
            return None;
        },
    };
    let (results, i2) = match parse_items_at(s, i1, count) {
        Some(p) => p,
        None => {
            return None;
        },
    };
    let (theme, i3) = match parse_bytes_at(s, i2) {
        Some(p) => p,
        None => {
            return None;
        },
    };
    let (colorscheme, i4) = match parse_bytes_at(s, i3) {
        Some(p) => p,
        None => {
            return None;
        },
    };
    let (is_empty, i5) = match parse_bool_at(s, i4) {
        Some(p) => p,
        None => {
            return None;
        },
    };
    if i5 != s.len() {
        return None;
    }
    let v = SearchResultSet { results, style: Style { theme, colorscheme }, is_empty };
    assert(set_model(v).results =~= v.results@.map_values(|it: SearchItem| item_model(it)));
    Some(v)
}

/// The value read from four bytes renders back to those bytes.
proof fn lemma_bytes_to_len4(b0: u8, b1: u8, b2: u8, b3: u8)
    ensures
        spec_len4(
            (b0 as nat) * 0x1000000 + (b1 as nat) * 0x10000 + (b2 as nat) * 0x100 + (b3 as nat),
        ) == seq![b0, b1, b2, b3],
{
    assert(((b0 as u64) * 0x1000000 + (b1 as u64) * 0x10000 + (b2 as u64) * 0x100 + (b3 as u64))
        / 0x1000000 % 0x100 == b0 as u64) by (bit_vector);
    assert(((b0 as u64) * 0x1000000 + (b1 as u64) * 0x10000 + (b2 as u64) * 0x100 + (b3 as u64))
        / 0x10000 % 0x100 == b1 as u64) by (bit_vector);
    assert(((b0 as u64) * 0x1000000 + (b1 as u64) * 0x10000 + (b2 as u64) * 0x100 + (b3 as u64))
        / 0x100 % 0x100 == b2 as u64) by (bit_vector);
    assert(((b0 as u64) * 0x1000000 + (b1 as u64) * 0x10000 + (b2 as u64) * 0x100 + (b3 as u64))
        % 0x100 == b3 as u64) by (bit_vector);
    let n = (b0 as nat) * 0x1000000 + (b1 as nat) * 0x10000 + (b2 as nat) * 0x100 + (b3 as nat);
    assert(spec_len4(n) =~= seq![b0, b1, b2, b3]);
}

/// Two adjacent subrange windows glue to one.
proof fn lemma_glue(s: Seq<u8>, i: int, j: int, k: int, a: Seq<u8>, b: Seq<u8>)
    requires
        0 <= i <= j <= k <= s.len(),
        s.subrange(i, j) == a,
        s.subrange(j, k) == b,
    ensures
        s.subrange(i, k) == a + b,
{
    assert(s.subrange(i, k) =~= a + b);
}

/// Whatever a length frame reads as, the frame is its rendering.
proof fn lemma_read_len4_sound(s: Seq<u8>, i: int)
    requires
        spec_read_len4(s, i) is Some,
    ensures
        ({
            let (n, j) = spec_read_len4(s, i)->Some_0;
            &&& 0 <= i
            &&& j == i + 4 <= s.len()
            &&& n < 0x100000000
            &&& s.subrange(i, j) == spec_len4(n)
        }),
{
    let (n, j) = spec_read_len4(s, i)->Some_0;
    lemma_bytes_to_len4(s[i], s[i + 1], s[i + 2], s[i + 3]);
    assert(s.subrange(i, i + 4) =~= seq![s[i], s[i + 1], s[i + 2], s[i + 3]]);
}

/// Whatever a framed field reads as, the window is its encoding.
proof fn lemma_parse_bytes_sound(s: Seq<u8>, i: int)
    requires
        spec_parse_bytes(s, i) is Some,
    ensures
        ({
            let (b, j) = spec_parse_bytes(s, i)->Some_0;
            &&& 0 <= i <= j <= s.len()
            &&& j == i + 4 + b.len()
            &&& text4_wf(b)
            &&& s.subrange(i, j) == spec_enc_bytes(b)
        }),
{
    let (b, j) = spec_parse_bytes(s, i)->Some_0;
    lemma_read_len4_sound(s, i);
    lemma_glue(s, i, i + 4, j, spec_len4(b.len()), b);
}

/// Whatever an item window reads as, the window is its encoding.
proof fn lemma_parse_item_sound(s: Seq<u8>, i: int)
    requires
        spec_parse_item(s, i) is Some,
    ensures
        ({
            let (it, j) = spec_parse_item(s, i)->Some_0;
            &&& 0 <= i <= j <= s.len()
            &&& j == i + spec_enc_item(it).len()
            &&& item_wf(it)
            &&& s.subrange(i, j) == spec_enc_item(it)
        }),
{
    let (it, j) = spec_parse_item(s, i)->Some_0;
    let (title, i1) = spec_parse_bytes(s, i)->Some_0;
    let (url, i2) = spec_parse_bytes(s, i1)->Some_0;
    let (description, i3) = spec_parse_bytes(s, i2)->Some_0;
    let (engine, i4) = spec_parse_bytes(s, i3)->Some_0;
    lemma_parse_bytes_sound(s, i);
    lemma_parse_bytes_sound(s, i1);
    lemma_parse_bytes_sound(s, i2);
    lemma_parse_bytes_sound(s, i3);
    lemma_glue(s, i, i1, i2, spec_enc_bytes(title), spec_enc_bytes(url));
    lemma_glue(s, i, i2, i3, spec_enc_bytes(title) + spec_enc_bytes(url),
        spec_enc_bytes(description));
    lemma_glue(s, i, i3, i4,
        spec_enc_bytes(title) + spec_enc_bytes(url) + spec_enc_bytes(description),
        spec_enc_bytes(engine));
}

/// Whatever an item run reads as, the window is its encoding.
proof fn lemma_parse_items_sound(s: Seq<u8>, i: int, count: nat)
    requires
        spec_parse_items(s, i, count) is Some,
        0 <= i <= s.len(),
    ensures
        ({
            let (items, j) = spec_parse_items(s, i, count)->Some_0;
            &&& i <= j <= s.len()
            &&& items.len() == count
            &&& forall|k: int| 0 <= k < items.len() ==> item_wf(#[trigger] items[k])
            &&& s.subrange(i, j) == spec_enc_items(items)
        }),
    decreases count,
{
    let (items, j) = spec_parse_items(s, i, count)->Some_0;
    if count == 0 {
        assert(s.subrange(i, i) =~= spec_enc_items(items));
    } else {
        let (it, j1) = spec_parse_item(s, i)->Some_0;
        let (rest, j2) = spec_parse_items(s, j1, (count - 1) as nat)->Some_0;
        lemma_parse_item_sound(s, i);
        lemma_parse_items_sound(s, j1, (count - 1) as nat);
        lemma_glue(s, i, j1, j2, spec_enc_item(it), spec_enc_items(rest));
        assert(items == seq![it] + rest);
        assert(items[0] == it);
        assert(items.drop_first() =~= rest);
        assert(spec_enc_items(items) == spec_enc_item(it) + spec_enc_items(rest));
        assert(forall|k: int| 0 <= k < rest.len() ==> rest[k] == items[k + 1]);
    }
}

/// Law: the format has one reading — whatever deserializes is exactly
/// the serialization of what it deserializes to, and that value fits
/// the format. Together with the round trip this makes the accepted
/// payloads exactly the serialized result sets.
pub proof fn lemma_decode_sound(s: Seq<u8>, m: SetModel)
    requires
        spec_decode_set(s) == Some(m),
    ensures
        set_wf(m),
        spec_encode_set(m) == s,
{
    let (count, i1) = spec_read_len4(s, 0)->Some_0;
    let (results, i2) = spec_parse_items(s, i1, count)->Some_0;
    let (theme, i3) = spec_parse_bytes(s, i2)->Some_0;
    let (colorscheme, i4) = spec_parse_bytes(s, i3)->Some_0;
    let (is_empty, i5) = spec_parse_bool(s, i4)->Some_0;
    lemma_read_len4_sound(s, 0);
    lemma_parse_items_sound(s, i1, count);
    lemma_parse_bytes_sound(s, i2);
    lemma_parse_bytes_sound(s, i3);
    assert(s.subrange(i4, i5) =~= spec_enc_bool(is_empty));
    lemma_glue(s, 0, i1, i2, spec_len4(count), spec_enc_items(results));
    lemma_glue(s, 0, i2, i3, spec_len4(count) + spec_enc_items(results),
        spec_enc_bytes(theme));
    lemma_glue(s, 0, i3, i4,
        spec_len4(count) + spec_enc_items(results) + spec_enc_bytes(theme),
        spec_enc_bytes(colorscheme));
    lemma_glue(s, 0, i4, i5,
        spec_len4(count) + spec_enc_items(results) + spec_enc_bytes(theme)
            + spec_enc_bytes(colorscheme),
        spec_enc_bool(is_empty));
    assert(s.subrange(0, s.len() as int) =~= s);
    assert(m.results == results);
}

} // verus!

