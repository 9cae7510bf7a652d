use educe::config::AppConfig;
use educe::models::{EngineReport, SearchQuery, SearchResult};
use educe::search::{
    cache_key, cache_slot, cache_window, caches_ranking, concurrency, dedup_suggestions, is_selected,
    jsonp_object, keyword_hits, listed, merge_duplicates, page_from_window,
    listed_ids_of, page_of, primary_source, query_words, resolve_request, sort_dedup, sort_reports,
    report_of, retries, unredirect_all, weight_bits,
};
use educe::engines::EngineError;

fn result(title: &str, url: &str, source: &str, rank: usize) -> SearchResult {
    SearchResult::new(title.into(), url.into(), String::new(), source, rank)
}

fn strings(v: &[&str]) -> Vec<String> {
    v.iter().map(|s| s.to_string()).collect()
}

#[test]
fn dedup_merges_same_url_across_sources() {
    let all = vec![
        result("Rust", "https://rust-lang.org/", "bing", 0),
        result("Rust lang", "https://rust-lang.org/?utm_source=1", "baidu", 1),
    ];
    let merged = merge_duplicates(&all);
    assert_eq!(merged.len(), 1);
    assert!(merged[0].0.source.contains("bing"));
    assert!(merged[0].0.source.contains("baidu"));
    assert_eq!(merged[0].0.title, "Rust lang"); // 标题取长
}

#[test]
fn merge_keeps_best_rank_and_member_ranks() {
    let mut a = result("T", "https://www.google.com/url?q=https%3A%2F%2Fx.com%2Fp&sa=U", "google", 4);
    a.published = None;
    let mut b = result("T", "https://x.com/p#frag", "bing", 2);
    b.snippet = "longer snippet".into();
    b.published = Some("2024".into());
    let c = result("Other", "https://y.com/", "bing", 0);
    let d = result("T", "https://x.com/p", "google", 7);
    let merged = merge_duplicates(&vec![a, b, c, d]);
    assert_eq!(merged.len(), 2);
    let (m, ranks) = &merged[0];
    assert_eq!(m.url, "https://x.com/p");
    assert_eq!(m.source, "google,bing");
    assert_eq!(m.rank, 2);
    assert_eq!(m.snippet, "longer snippet");
    assert_eq!(m.published.as_deref(), Some("2024"));
    assert_eq!(ranks, &vec![4, 2, 7]);
    assert_eq!(merged[1].1, vec![0]);
}

#[test]
fn unredirect_all_rewrites_urls() {
    let out = unredirect_all(&vec![result(
        "T",
        "https://www.google.com/url?q=https%3A%2F%2Frust-lang.org%2F&sa=U",
        "google",
        0,
    )]);
    assert_eq!(out[0].url, "https://rust-lang.org/");
}

#[test]
fn keyword_hits_match_whole_ascii_words() {
    let words = query_words("Rust  异步 a Web");
    assert_eq!(words, strings(&["rust", "异步", "web"]));
    assert_eq!(keyword_hits(&words, "Rust async book", "讲异步"), vec![2, 1, 0]);
    assert_eq!(keyword_hits(&strings(&["rust"]), "Rusty nails", "trust me"), vec![0]);
    assert_eq!(keyword_hits(&strings(&["rust"]), "Something else", ""), vec![0]);
}

#[test]
fn weights_prefer_overrides_of_the_first_source() {
    let cfg = AppConfig::default();
    let overrides = vec![("github".to_string(), 5.0f64.to_bits())];
    assert_eq!(f64::from_bits(weight_bits(&cfg, Some(&overrides), "github,bing")), 5.0);
    assert_eq!(f64::from_bits(weight_bits(&cfg, Some(&overrides), "bing,github")), 1.0);
    assert_eq!(primary_source("bing,baidu"), "bing");
    assert!(listed("bing,baidu", "baidu"));
    assert!(!listed("bing,baidu", "bai"));
    assert!(caches_ranking(None));
    assert!(!caches_ranking(Some(&overrides)));
    assert_eq!(concurrency(&cfg), 8);
}

#[test]
fn cache_keys_ignore_source_order_and_case() {
    let a = cache_key(true, "  Rust 异步 ", Some(&strings(&["Bing", "baidu", "bing"])));
    let b = cache_key(true, "rust 异步", Some(&strings(&["baidu", "BING"])));
    assert_eq!(a.as_deref(), Some("rust 异步|baidu,bing"));
    assert_eq!(a, b);
    assert_eq!(cache_key(true, "q", None).as_deref(), Some("q|all"));
    assert_eq!(cache_key(true, "q", Some(&Vec::new())).as_deref(), Some("q|all"));
    assert_eq!(cache_key(false, "q", None), None);
    assert_eq!(cache_key(true, "   ", None), None);
    assert_eq!(sort_dedup(&strings(&["b", "a", "ab", "a"])), strings(&["a", "ab", "b"]));
}

#[test]
fn suggestions_are_trimmed_unique_and_capped() {
    let items = strings(&[" a ", "a", "", "b", "  "]);
    assert_eq!(dedup_suggestions(items), strings(&["a", "b"]));
    let many: Vec<String> = (0..15).map(|i| format!("s{i}")).collect();
    assert_eq!(dedup_suggestions(many).len(), 10);
    let text = "educe({\"q\":\"x\",\"s\":[\"a\",\"b\"]});";
    assert_eq!(jsonp_object(text).as_deref(), Some("{\"q\":\"x\",\"s\":[\"a\",\"b\"]}"));
    assert_eq!(jsonp_object("no object"), None);
    assert_eq!(jsonp_object("} {"), None);
    assert_eq!(jsonp_object("educe(} x {)"), None);
    assert_eq!(jsonp_object("}{").as_deref(), Some(""));
}

#[test]
fn paging_and_the_cache_window() {
    let ranked: Vec<SearchResult> = (0..10)
        .map(|i| result("t", &format!("https://e.com/{i}"), "bing", i))
        .collect();
    let page = page_of(&ranked, 8, 5);
    assert_eq!(page.iter().map(|r| r.rank).collect::<Vec<_>>(), vec![8, 9]);
    assert!(page_of(&ranked, 50, 5).is_empty());
    assert_eq!(cache_window(4, 2, 10), Some((2, 8)));
    assert_eq!(cache_window(0, 3, 10), Some((0, 6)));
    assert_eq!(cache_window(20, 10, 10), None);
    assert_eq!(cache_window(999_999, 10, 10), None);
    let window: Vec<SearchResult> = ranked[2..8].to_vec();
    let hit = page_from_window(4, 2, 2, &window).expect("inside the window");
    assert_eq!(hit.iter().map(|r| r.rank).collect::<Vec<_>>(), vec![4, 5]);
    assert!(page_from_window(7, 2, 2, &window).is_none());
    assert!(page_from_window(1, 2, 2, &window).is_none());
}

#[test]
fn reports_sort_by_engine_id() {
    let rep = |id: &str| EngineReport { id: id.into(), count: 0, time_ms: 1, error: None, retried: false };
    let sorted = sort_reports(vec![rep("zhihu"), rep("baidu"), rep("github")]);
    assert_eq!(
        sorted.iter().map(|r| r.id.as_str()).collect::<Vec<_>>(),
        vec!["baidu", "github", "zhihu"]
    );
}

#[test]
fn requests_resolve_sources_and_page_size() {
    let q = SearchQuery { q: "  rust ".into(), sources: Some(" bing, ,github ".into()), max: Some(0), offset: None };
    let r = resolve_request(&q, &strings(&["baidu"]), &strings(&["mine"]), 50, 20000).unwrap();
    assert_eq!(r.query, "rust");
    assert_eq!(r.sources, strings(&["bing", "github"]));
    assert_eq!(r.max, 1);
    assert_eq!(r.offset, 0);
    let q2 = SearchQuery { q: "x".into(), sources: Some("  ".into()), max: None, offset: Some(20) };
    let r2 = resolve_request(&q2, &strings(&["baidu"]), &strings(&["mine"]), 50, 30).unwrap();
    assert_eq!(r2.sources, strings(&["baidu", "mine"]));
    assert_eq!(r2.max, 30);
    assert_eq!(r2.offset, 20);
    let blank = SearchQuery { q: " ".into(), sources: None, max: None, offset: None };
    assert_eq!(resolve_request(&blank, &Vec::new(), &Vec::new(), 50, 30).unwrap_err(), "参数 q 不能为空");
    assert!(is_selected("bing", None));
    assert!(!is_selected("bing", Some(&strings(&["baidu"]))));
}

#[test]
fn source_lists_are_trimmed_ids() {
    assert_eq!(listed_ids_of(" bing, ,github ,"), vec!["bing".to_string(), "github".to_string()]);
    assert!(listed_ids_of("").is_empty());
}

#[test]
fn report_counts_results_of_a_successful_engine() {
    let ok: Result<Vec<SearchResult>, EngineError> =
        Ok(vec![result("a", "https://a.com/", "bing", 0), result("b", "https://b.com/", "bing", 1)]);
    let r = report_of("bing".into(), &ok, 120, false);
    assert_eq!(r.id, "bing");
    assert_eq!(r.count, 2);
    assert_eq!(r.time_ms, 120);
    assert_eq!(r.error, None);
    assert!(!r.retried);
}

#[test]
fn report_of_a_failed_engine_has_no_results_and_the_message() {
    let blocked: Result<Vec<SearchResult>, EngineError> = Err(EngineError::Blocked("验证码".into()));
    let r = report_of("google".into(), &blocked, 7, true);
    assert_eq!(r.count, 0);
    assert_eq!(r.error.as_deref(), Some("验证码"));
    assert!(r.retried);
    let timeout: Result<Vec<SearchResult>, EngineError> = Err(EngineError::Timeout);
    assert_eq!(report_of("x".into(), &timeout, 0, false).error.as_deref(), Some("超时"));
}

#[test]
fn only_network_errors_and_timeouts_are_retried() {
    let ok: Result<Vec<SearchResult>, EngineError> = Ok(vec![]);
    assert!(!retries(&ok));
    assert!(retries(&Err(EngineError::Http("reset".into()))));
    assert!(retries(&Err(EngineError::Timeout)));
    assert!(!retries(&Err(EngineError::Blocked("403".into()))));
    assert!(!retries(&Err(EngineError::Parse("bad".into()))));
}

#[test]
fn cache_is_skipped_when_weights_are_overridden() {
    let overrides = vec![("bing".to_string(), 2.0f64.to_bits())];
    assert_eq!(cache_slot(true, "Rust", None, Some(&overrides)), None);
    let none: Vec<(String, u64)> = vec![];
    assert_eq!(cache_slot(true, "Rust", None, Some(&none)), cache_key(true, "Rust", None));
    assert_eq!(cache_slot(true, " Rust ", None, None).as_deref(), Some("rust|all"));
    assert_eq!(cache_slot(false, "Rust", None, None), None);
}
