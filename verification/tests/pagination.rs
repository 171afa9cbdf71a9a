use websurfx::pagination::{build_cache_key, effective_page};
use websurfx::text::is_blank;

fn host() -> Vec<u8> {
    b"127.0.0.1".to_vec()
}

#[test]
fn effective_page_normalizes_low_pages() {
    assert_eq!(effective_page(None), 1);
    assert_eq!(effective_page(Some(0)), 1);
    assert_eq!(effective_page(Some(1)), 1);
    assert_eq!(effective_page(Some(2)), 2);
    assert_eq!(effective_page(Some(37)), 37);
}

#[test]
fn key_without_page_appends_page_one() {
    let key = build_cache_key(
        &host(),
        8080,
        &b"sweden".to_vec(),
        &b"/search?q=sweden".to_vec(),
        None,
    );
    assert_eq!(key, b"http://127.0.0.1:8080/search?q=sweden&page=1".to_vec());
    assert!(key.ends_with(b"&page=1"));
}

#[test]
fn key_for_page_zero_equals_key_without_page() {
    let uri = b"/search?q=sweden".to_vec();
    let q = b"sweden".to_vec();
    let none_key = build_cache_key(&host(), 8080, &q, &uri, None);
    let zero_key = build_cache_key(&host(), 8080, &q, &uri, Some(0));
    let one_key = build_cache_key(&host(), 8080, &q, &uri, Some(1));
    assert_eq!(none_key, zero_key);
    assert_eq!(zero_key, one_key);
}

#[test]
fn key_for_high_page_keeps_the_page() {
    let key = build_cache_key(
        &host(),
        8080,
        &b"sweden".to_vec(),
        &b"/search?q=sweden&page=3".to_vec(),
        Some(3),
    );
    assert_eq!(key, b"http://127.0.0.1:8080/search?q=sweden&page=3".to_vec());
}

#[test]
fn key_uses_port_decimal() {
    let key = build_cache_key(&host(), 65535, &b"a".to_vec(), &b"/search?q=a".to_vec(), Some(2));
    assert_eq!(key, b"http://127.0.0.1:65535/search?q=a&page=2".to_vec());
}

#[test]
fn blank_detection_matches_trim() {
    assert!(is_blank(&b"".to_vec()));
    assert!(is_blank(&b"   \t\r\n".to_vec()));
    assert!(!is_blank(&b" sweden ".to_vec()));
}
