use websurfx::codec::{decode_set, encode_set};
use websurfx::results::{enrich, SearchItem, SearchResultSet, Style};

fn style() -> Style {
    Style { theme: b"simple".to_vec(), colorscheme: b"catppuccin-mocha".to_vec() }
}

fn item(n: u8) -> SearchItem {
    SearchItem {
        title: vec![b'T', n],
        url: vec![b'u', b'/', n],
        description: b"a description".to_vec(),
        engine: b"engineA".to_vec(),
    }
}

#[test]
fn round_trip_two_items() {
    let set = SearchResultSet {
        results: vec![item(b'1'), item(b'2')],
        style: style(),
        is_empty: false,
    };
    let payload = encode_set(&set).expect("encodes");
    let back = decode_set(&payload).expect("decodes");
    assert_eq!(back, set);
}

#[test]
fn round_trip_empty_results() {
    let set = SearchResultSet { results: vec![], style: style(), is_empty: true };
    let payload = encode_set(&set).expect("encodes");
    let back = decode_set(&payload).expect("decodes");
    assert_eq!(back, set);
}

#[test]
fn decode_rejects_garbage() {
    assert!(decode_set(&b"not a payload".to_vec()).is_none());
    assert!(decode_set(&Vec::new()).is_none());
}

#[test]
fn decode_rejects_truncation_and_trailing_bytes() {
    let set = SearchResultSet { results: vec![item(b'1')], style: style(), is_empty: false };
    let payload = encode_set(&set).expect("encodes");
    let mut short = payload.clone();
    short.pop();
    assert!(decode_set(&short).is_none());
    let mut long = payload.clone();
    long.push(0);
    assert!(decode_set(&long).is_none());
}

#[test]
fn enrich_attaches_style_and_empty_flag() {
    let mut set = SearchResultSet {
        results: vec![],
        style: Style { theme: Vec::new(), colorscheme: Vec::new() },
        is_empty: false,
    };
    enrich(&mut set, &style());
    assert_eq!(set.style, style());
    assert!(set.is_empty);

    let mut full = SearchResultSet {
        results: vec![item(b'1')],
        style: Style { theme: Vec::new(), colorscheme: Vec::new() },
        is_empty: true,
    };
    enrich(&mut full, &style());
    assert!(!full.is_empty);
    assert_eq!(full.results, vec![item(b'1')]);
}

#[test]
fn enrich_is_idempotent() {
    let mut set = SearchResultSet {
        results: vec![item(b'9')],
        style: Style { theme: Vec::new(), colorscheme: Vec::new() },
        is_empty: true,
    };
    enrich(&mut set, &style());
    let once = set.clone();
    enrich(&mut set, &style());
    assert_eq!(set, once);
}

#[test]
fn serialized_form_is_length_framed() {
    let set = SearchResultSet {
        results: vec![],
        style: Style { theme: b"t".to_vec(), colorscheme: b"c".to_vec() },
        is_empty: true,
    };
    let payload = encode_set(&set).expect("encodes");
    let expected: Vec<u8> = vec![
        0, 0, 0, 0, // no items
        0, 0, 0, 1, b't', // theme
        0, 0, 0, 1, b'c', // colorscheme
        1, // empty-result flag
    ];
    assert_eq!(payload, expected);
}
