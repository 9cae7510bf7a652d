use educe::cache::SearchCache;
use educe::models::SearchResult;

fn res(url: &str) -> Vec<SearchResult> {
    vec![SearchResult::new("t".into(), url.into(), "".into(), "bing", 0)]
}

fn window(urls: &[&str]) -> Vec<SearchResult> {
    urls.iter()
        .map(|u| SearchResult::new("t".into(), u.to_string(), "".into(), "bing", 0))
        .collect()
}

#[test]
fn disabled_when_ttl_zero() {
    let mut c = SearchCache::new(0, 10);
    assert!(!c.enabled());
    assert!(c.get("k", 0).is_none());
}

#[test]
fn set_get_roundtrip() {
    let mut c = SearchCache::new(60_000, 10);
    c.set("k".into(), 50, 500, res("https://a.com"), 0);
    let (base, total, got) = c.get("k", 0).expect("应命中");
    assert_eq!(base, 50);
    assert_eq!(total, 500);
    assert_eq!(got[0].url, "https://a.com");
}

#[test]
fn window_keeps_three_page_slice() {
    let mut c = SearchCache::new(60_000, 10);
    c.set(
        "k".into(),
        50,
        100,
        window(&["https://a.com", "https://b.com", "https://c.com"]),
        0,
    );
    let (base, total, got) = c.get("k", 0).expect("应命中");
    assert_eq!((base, total), (50, 100));
    assert_eq!(
        got.iter().map(|r| r.url.as_str()).collect::<Vec<_>>(),
        vec!["https://a.com", "https://b.com", "https://c.com"]
    );
}

#[test]
fn expires_after_ttl() {
    let mut c = SearchCache::new(10, 10);
    c.set("k".into(), 0, 1, res("https://a.com"), 0);
    // 30 ms later
    assert!(c.get("k", 30).is_none());
}

#[test]
fn evicts_oldest_when_full() {
    let mut c = SearchCache::new(60_000, 2);
    c.set("a".into(), 0, 1, res("https://a.com"), 0);
    c.set("b".into(), 0, 1, res("https://b.com"), 0);
    c.set("c".into(), 0, 1, res("https://c.com"), 0);
    assert!(c.get("a", 0).is_none());
    assert!(c.get("b", 0).is_some());
    assert!(c.get("c", 0).is_some());
}

#[test]
fn expired_entries_go_before_old_ones() {
    let mut c = SearchCache::new(100, 2);
    c.set("a".into(), 0, 1, res("https://a.com"), 0);
    c.set("b".into(), 0, 1, res("https://b.com"), 150);
    c.set("c".into(), 0, 1, res("https://c.com"), 150);
    // "a" expired at 100 and is dropped; "b" and "c" both stay
    assert_eq!(c.len(), 2);
    assert!(c.get("b", 160).is_some());
    assert!(c.get("c", 160).is_some());
}

#[test]
fn a_miss_drops_the_key_and_a_set_replaces() {
    let mut c = SearchCache::new(10, 0);
    c.set("k".into(), 0, 1, res("https://a.com"), 0);
    c.set("k".into(), 5, 9, res("https://b.com"), 5);
    assert_eq!(c.len(), 1);
    let (base, total, got) = c.get("k", 14).expect("hit");
    assert_eq!((base, total, got[0].url.as_str()), (5, 9, "https://b.com"));
    assert!(c.get("k", 15).is_none());
    assert_eq!(c.len(), 0);
    c.set("x".into(), 0, 1, res("https://x.com"), 20);
    c.clear();
    assert_eq!(c.len(), 0);
}
