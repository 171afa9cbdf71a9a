use websurfx::engines::{parse_cookie, resolve_engines};

fn defaults() -> Vec<Vec<u8>> {
    vec![b"engineA".to_vec(), b"engineB".to_vec()]
}

fn cookie_bytes() -> Vec<u8> {
    br#"{"theme":"simple","colorscheme":"catppuccin-mocha","engines":["engineA","engineC"]}"#
        .to_vec()
}

#[test]
fn parses_canonical_cookie() {
    let prefs = parse_cookie(&cookie_bytes()).expect("well-formed cookie");
    assert_eq!(prefs.theme, b"simple".to_vec());
    assert_eq!(prefs.colorscheme, b"catppuccin-mocha".to_vec());
    assert_eq!(prefs.engines, vec![b"engineA".to_vec(), b"engineC".to_vec()]);
}

#[test]
fn parses_single_engine_and_empty_list() {
    let one = parse_cookie(&br#"{"theme":"t","colorscheme":"c","engines":["x"]}"#.to_vec())
        .expect("one engine");
    assert_eq!(one.engines, vec![b"x".to_vec()]);
    let none = parse_cookie(&br#"{"theme":"t","colorscheme":"c","engines":[]}"#.to_vec())
        .expect("empty list");
    assert_eq!(none.engines, Vec::<Vec<u8>>::new());
}

#[test]
fn rejects_malformed_cookies() {
    assert!(parse_cookie(&b"".to_vec()).is_none());
    assert!(parse_cookie(&b"garbage".to_vec()).is_none());
    assert!(parse_cookie(&br#"{"theme":"t"}"#.to_vec()).is_none());
    assert!(parse_cookie(&br#"{"theme":"t","colorscheme":"c","engines":["x"]"#.to_vec())
        .is_none());
    assert!(parse_cookie(&br#"{"theme":"t","colorscheme":"c","engines":["x"],}"#.to_vec())
        .is_none());
}

#[test]
fn absent_cookie_uses_defaults() {
    let r = resolve_engines(&None, &defaults()).expect("defaults apply");
    assert_eq!(r, defaults());
}

#[test]
fn present_cookie_overrides_defaults() {
    let r = resolve_engines(&Some(cookie_bytes()), &defaults()).expect("cookie applies");
    assert_eq!(r, vec![b"engineA".to_vec(), b"engineC".to_vec()]);
}

#[test]
fn malformed_cookie_fails_instead_of_falling_back() {
    let r = resolve_engines(&Some(b"{broken".to_vec()), &defaults());
    assert!(r.is_none());
}

#[test]
fn rejects_non_canonical_whitespace() {
    let spaced = br#"{"theme": "t","colorscheme":"c","engines":["x"]}"#.to_vec();
    assert!(parse_cookie(&spaced).is_none());
}

#[test]
fn empty_cookie_engine_list_falls_back_to_defaults() {
    let cookie = br#"{"theme":"t","colorscheme":"c","engines":[]}"#.to_vec();
    let r = resolve_engines(&Some(cookie), &defaults()).expect("cookie decodes");
    assert_eq!(r, defaults());
}
