use educe::engines::common::{
    absolute_url, clean_text, clip, encode_query_pct, normalize_url, strip_html, unredirect_url,
};
use educe::models::clean_title;

#[test]
fn clean_text_collapses_whitespace() {
    assert_eq!(clean_text("  a\n\t b  c "), "a b c");
}

#[test]
fn clip_truncates_with_ellipsis() {
    let s = clip("一二三四五六七八九十", 5);
    assert_eq!(s.chars().count(), 6);
    assert!(s.ends_with('…'));
    assert_eq!(clip("short", 100), "short");
}

#[test]
fn absolute_url_resolves_relative() {
    assert_eq!(
        absolute_url("https://example.com/a/b", "../c").as_deref(),
        Some("https://example.com/c")
    );
    assert_eq!(
        absolute_url("https://example.com/a/", "/root").as_deref(),
        Some("https://example.com/root")
    );
}

#[test]
fn strip_html_removes_tags() {
    assert_eq!(strip_html("<p>Hello <b>world</b></p>"), "Hello world");
}

#[test]
fn encode_query_pct_encodes_space_and_unicode() {
    assert_eq!(encode_query_pct("a b"), "a%20b");
    assert!(encode_query_pct("中").starts_with('%'));
}

#[test]
fn normalize_url_strips_tracking_and_fragment() {
    assert_eq!(
        normalize_url("https://x.com/p?utm_source=1&id=2#top"),
        "https://x.com/p?id=2"
    );
}

#[test]
fn normalize_url_keeps_clean_url_unchanged() {
    let u = "https://x.com/path?q=1";
    assert_eq!(normalize_url(u), u);
}

#[test]
fn normalize_url_strips_trailing_slash() {
    assert_eq!(normalize_url("https://x.com/a/b/"), "https://x.com/a/b");
    assert_eq!(normalize_url("https://x.com/"), "https://x.com/");
}

#[test]
fn normalize_url_drops_an_emptied_query_and_a_lone_fragment() {
    assert_eq!(normalize_url("https://x.com/p?utm_source=1&fbclid=2"), "https://x.com/p");
    assert_eq!(normalize_url("https://x.com/p#frag"), "https://x.com/p");
    assert_eq!(normalize_url("https://x.com/a/?ref=z&k=v%20w#f"), "https://x.com/a?k=v+w");
    assert_eq!(normalize_url("not a url/"), "not a url/");
}

#[test]
fn unredirect_url_resolves_google() {
    assert_eq!(
        unredirect_url("https://www.google.com/url?q=https%3A%2F%2Frust-lang.org%2F&sa=U"),
        "https://rust-lang.org/"
    );
}

#[test]
fn unredirect_url_resolves_baidu_base64() {
    let target = "aHR0cHM6Ly9ydXN0LWxhbmcub3JnLw";
    assert_eq!(
        unredirect_url(&format!("https://www.baidu.com/link?url={target}")),
        "https://rust-lang.org/"
    );
}

#[test]
fn unredirect_url_keeps_normal_url() {
    let u = "https://example.com/path?q=1";
    assert_eq!(unredirect_url(u), u);
    assert_eq!(
        unredirect_url("https://www.baidu.com/link?url=javascript%3Aalert(1)"),
        "https://www.baidu.com/link?url=javascript%3Aalert(1)"
    );
}

#[test]
fn clean_title_strips_known_site_suffix() {
    assert_eq!(clean_title("Rust 入门 - 知乎"), "Rust 入门");
    assert_eq!(clean_title("HashMap 详解_CSDN博客"), "HashMap 详解");
    assert_eq!(clean_title("无后缀标题"), "无后缀标题");
}

#[test]
fn clean_title_strips_short_generic_suffix() {
    assert_eq!(clean_title("Rust 异步 | MDN"), "Rust 异步");
    assert_eq!(
        clean_title("标题 - 很长的站点名称后缀超出八字符"),
        "标题 - 很长的站点名称后缀超出八字符"
    );
}

#[test]
fn clean_title_keeps_empty() {
    assert_eq!(clean_title(""), "");
}

#[test]
fn strip_html_output_is_plain_and_stable() {
    let once = strip_html("<div class=\"x\">  a <i>b</i>\n\t c </div> d > e");
    assert_eq!(once, "a b c d e");
    assert!(!once.contains('<') && !once.contains('>'));
    assert_eq!(strip_html(&once), once);
    assert_eq!(clean_text(&once), once);
    assert_eq!(strip_html("  no   tags here "), clean_text("  no   tags here "));
}
