//! The result-set data model and the Result Enricher: a freshly
//! aggregated result set gets its presentation style attached and its
//! empty-result flag computed, exactly once per cache miss.

use vstd::prelude::*;

verus! {

/// Presentation metadata attached to a result set before rendering.
#[derive(Debug, Clone, PartialEq, Eq)]
pub struct Style {
    pub theme: Vec<u8>,
    pub colorscheme: Vec<u8>,
}

/// One per-engine result item.
#[derive(Debug, Clone, PartialEq, Eq)]
pub struct SearchItem {
    pub title: Vec<u8>,
    pub url: Vec<u8>,
    pub description: Vec<u8>,
    pub engine: Vec<u8>,
}

/// A set of aggregated results together with its presentation style and
/// the flag that tells the renderer to show an empty-results state.
#[derive(Debug, Clone, PartialEq, Eq)]
pub struct SearchResultSet {
    pub results: Vec<SearchItem>,
    pub style: Style,
    pub is_empty: bool,
}

/// Mathematical model of a `Style`.
pub struct StyleModel {
    pub theme: Seq<u8>,
    pub colorscheme: Seq<u8>,
}

/// Mathematical model of a `SearchItem`.
pub struct ItemModel {
    pub title: Seq<u8>,
    pub url: Seq<u8>,
    pub description: Seq<u8>,
    pub engine: Seq<u8>,
}

/// Mathematical model of a `SearchResultSet`.
pub struct SetModel {
    pub results: Seq<ItemModel>,
    pub style: StyleModel,
    pub is_empty: bool,
}

/// The model of a `Style` value.
pub open spec fn style_model(s: Style) -> StyleModel {
    StyleModel { theme: s.theme@, colorscheme: s.colorscheme@ }
}

/// The model of a `SearchItem` value.
pub open spec fn item_model(it: SearchItem) -> ItemModel {
    ItemModel {
        title: it.title@,
        url: it.url@,
        description: it.description@,
        engine: it.engine@,
    }
}

/// The model of a `SearchResultSet` value.
pub open spec fn set_model(s: SearchResultSet) -> SetModel {
    SetModel {
        results: s.results@.map_values(|it: SearchItem| item_model(it)),
        style: style_model(s.style),
        is_empty: s.is_empty,
    }
}

/// Copies a byte buffer.
pub fn clone_bytes(v: &Vec<u8>) -> (r: Vec<u8>)
    ensures
        r@ == v@,
{
    let r = v.clone();
    assert(r@ =~= v@);
    r
}

/// Copies a style.
pub fn clone_style(s: &Style) -> (r: Style)
    ensures
        style_model(r) == style_model(*s),
{
    Style { theme: clone_bytes(&s.theme), colorscheme: clone_bytes(&s.colorscheme) }
}

/// The model of an enriched result set: the given style attached, the
/// empty flag computed from the result sequence's length, the results
/// themselves untouched.
pub open spec fn spec_enriched(m: SetModel, style: StyleModel) -> SetModel {
    SetModel { results: m.results, style: style, is_empty: m.results.len() == 0 }
}

/// Result Enricher: attaches the presentation style and computes the
/// empty-result flag. Idempotent given the same inputs.
pub fn enrich(set: &mut SearchResultSet, style: &Style)
    ensures
        set_model(*final(set)) == spec_enriched(set_model(*old(set)), style_model(*style)),
{
    set.style = clone_style(style);
    set.is_empty = set.results.len() == 0;
    assert(set_model(*set).results =~= set_model(*old(set)).results);
}

/// Law: enrichment is idempotent — enriching an already enriched set
/// with the same style changes nothing.
pub proof fn lemma_enrich_idempotent(m: SetModel, style: StyleModel)
    ensures
        spec_enriched(spec_enriched(m, style), style) == spec_enriched(m, style),
{
}

} // verus!
