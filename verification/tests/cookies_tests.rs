use proxy_fetch::cookies::CookieSet;
use proxy_fetch::cookies_handler::ZenrowsCookiesHandler;
use proxy_fetch::proxy_handler::BrightDataRandomProxyHandler;
use proxy_fetch::utils::{split_lines, trim};

type Handler = ZenrowsCookiesHandler<BrightDataRandomProxyHandler>;

#[test]
fn parse_cookies_basic() {
    let set = Handler::parse_cookies("KP_UIDz=abc; KP_UIDz-ssn=def");
    assert_eq!(set.len(), 2);
    assert_eq!(set.get("KP_UIDz").unwrap().as_str(), "abc");
    assert_eq!(set.get("KP_UIDz-ssn").unwrap().as_str(), "def");
}

#[test]
fn parse_cookies_trims_whitespace() {
    let set = Handler::parse_cookies("  name =  value ; other=x");
    assert_eq!(set.get("name").unwrap().as_str(), "value");
    assert_eq!(set.get("other").unwrap().as_str(), "x");
}

#[test]
fn parse_cookies_skips_items_without_equals() {
    let set = Handler::parse_cookies("junk; a=1; alsojunk");
    assert_eq!(set.len(), 1);
    assert_eq!(set.get("a").unwrap().as_str(), "1");
}

#[test]
fn parse_cookies_last_value_wins() {
    let set = Handler::parse_cookies("a=1; b=2; a=3");
    assert_eq!(set.len(), 2);
    assert_eq!(set.get("a").unwrap().as_str(), "3");
    assert_eq!(set.get("b").unwrap().as_str(), "2");
}

#[test]
fn parse_cookies_value_keeps_later_equals() {
    let set = Handler::parse_cookies("a=b=c");
    assert_eq!(set.get("a").unwrap().as_str(), "b=c");
}

#[test]
fn parse_cookies_empty_string() {
    let set = Handler::parse_cookies("");
    assert_eq!(set.len(), 0);
}

#[test]
fn cookie_header_transmits_only_recognized_names() {
    let mut set = CookieSet::new();
    set.insert("KP_UIDz".to_string(), "a".to_string());
    set.insert("KP_UIDz-ssn".to_string(), "b".to_string());
    set.insert("other".to_string(), "c".to_string());
    let header = set.cookie_header();
    assert!(header.contains("KP_UIDz=a"));
    assert!(header.contains("KP_UIDz-ssn=b"));
    assert!(!header.contains("other"));
    assert!(!header.contains("c;"));
    assert_eq!(header, "KP_UIDz=a; KP_UIDz-ssn=b");
}

#[test]
fn cookie_header_empty_without_recognized_names() {
    let mut set = CookieSet::new();
    set.insert("other".to_string(), "c".to_string());
    assert_eq!(set.cookie_header(), "");
}

#[test]
fn cookie_header_single_pair_has_no_separator() {
    let mut set = CookieSet::new();
    set.insert("KP_UIDz".to_string(), "only".to_string());
    assert_eq!(set.cookie_header(), "KP_UIDz=only");
}

#[test]
fn insert_replaces_existing_name() {
    let mut set = CookieSet::new();
    set.insert("k".to_string(), "v1".to_string());
    set.insert("k".to_string(), "v2".to_string());
    assert_eq!(set.len(), 1);
    assert_eq!(set.get("k").unwrap().as_str(), "v2");
}

#[test]
fn duplicate_is_equal_snapshot() {
    let mut set = CookieSet::new();
    set.insert("k".to_string(), "v".to_string());
    let copy = set.duplicate();
    assert_eq!(copy.get("k").unwrap().as_str(), "v");
    assert_eq!(copy.len(), 1);
    // Changing the source set does not reach the snapshot.
    set.insert("k".to_string(), "w".to_string());
    assert_eq!(copy.get("k").unwrap().as_str(), "v");
}

#[test]
fn trim_removes_surrounding_whitespace() {
    assert_eq!(trim("  a b \t"), "a b");
    assert_eq!(trim(""), "");
    assert_eq!(trim(" \t "), "");
    assert_eq!(trim("x"), "x");
}

#[test]
fn split_lines_matches_line_semantics() {
    let v = split_lines("a\nb\n");
    assert_eq!(v, vec!["a".to_string(), "b".to_string()]);
    let v = split_lines("a\r\nb");
    assert_eq!(v, vec!["a".to_string(), "b".to_string()]);
    let v = split_lines("");
    assert!(v.is_empty());
    let v = split_lines("\n");
    assert_eq!(v, vec!["".to_string()]);
}
