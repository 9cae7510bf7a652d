use educe::config::AppConfig;
use educe::engines::common::{encode_query_pct, percent_decode};
use educe::prefs::{
    engine_setting, extract_cookie, set_cookie_header, EnginePref, UserPrefs, PREFS_COOKIE,
    PREFS_MAX_AGE,
};

#[test]
fn cookie_value_is_found_among_pieces() {
    let h = "a=1; educe_prefs = %7B%7D ; b=2";
    assert_eq!(extract_cookie(Some(h), PREFS_COOKIE), Some("%7B%7D"));
    assert_eq!(extract_cookie(Some("x=1;educe_prefs=v=w"), "educe_prefs"), Some("v=w"));
    assert_eq!(extract_cookie(Some("educe_prefsX=1"), "educe_prefs"), None);
    assert_eq!(extract_cookie(Some("novalue; educe_prefs"), "educe_prefs"), None);
    assert_eq!(extract_cookie(None, "educe_prefs"), None);
    assert_eq!(extract_cookie(Some(""), "educe_prefs"), None);
}

#[test]
fn set_cookie_header_formats_the_cookie() {
    assert_eq!(
        set_cookie_header("abc", PREFS_MAX_AGE),
        "educe_prefs=abc; Path=/; HttpOnly; SameSite=Lax; Max-Age=31536000"
    );
    assert_eq!(
        set_cookie_header("", 0),
        "educe_prefs=; Path=/; HttpOnly; SameSite=Lax; Max-Age=0"
    );
}

#[test]
fn merge_from_overrides_set_fields_only() {
    let mut p = UserPrefs::default();
    p.set_engine("bing".into(), EnginePref { enabled: false, weight: None });
    p.set_engine("baidu".into(), EnginePref { enabled: true, weight: Some(2.0f64.to_bits()) });
    let mut other = UserPrefs::default();
    other.lang = String::new();
    other.theme = "light".into();
    other.results_per_page = 0;
    other.open_in_new_tab = false;
    other.timeout_ms = 5000;
    other.accent = "green".into();
    other.set_engine("bing".into(), EnginePref { enabled: true, weight: None });
    other.set_engine("github".into(), EnginePref { enabled: false, weight: None });
    p.merge_from(&other);
    assert_eq!(p.lang, "zh");
    assert_eq!(p.theme, "light");
    assert_eq!(p.results_per_page, 50);
    assert!(!p.open_in_new_tab);
    assert_eq!(p.timeout_ms, 5000);
    assert_eq!(p.accent, "green");
    let mut keep = UserPrefs::default();
    keep.accent = String::new();
    p.merge_from(&keep);
    assert_eq!(p.accent, "green");
    assert_eq!(p.engines.len(), 3);
    let ids = p.enabled_engine_ids();
    assert!(ids.contains(&"bing".to_string()));
    assert!(!ids.contains(&"github".to_string()));
    assert_eq!(ids[0], "baidu");
    let w = p.weight_overrides();
    assert_eq!(w, vec![("baidu".to_string(), 2.0f64.to_bits())]);
}

#[test]
fn defaults_follow_the_configuration() {
    let mut cfg = AppConfig::default();
    cfg.engines.enabled = vec!["bing".into()];
    cfg.weights = vec![("bing".into(), 3.0f64.to_bits())];
    cfg.search.max_results = 5;
    let p = UserPrefs::defaults_from_config(&cfg);
    assert_eq!(p.results_per_page, 10);
    assert_eq!(p.engines.len(), 20);
    assert_eq!(p.enabled_engine_ids(), vec!["bing".to_string()]);
    assert_eq!(engine_setting(Some(&p), &cfg, "bing"), (true, 3.0f64.to_bits()));
    assert_eq!(engine_setting(Some(&p), &cfg, "baidu"), (false, 1.0f64.to_bits()));
    assert_eq!(engine_setting(None, &cfg, "mine"), (true, 1.0f64.to_bits()));
    assert_eq!(p.effective_timeout(&cfg), 10_000);
}

#[test]
fn stored_preferences_read_back() {
    let json = "{\"lang\":\"en\",\"theme\":\"light; dark\"}";
    let v = encode_query_pct(json);
    let set = set_cookie_header(&v, PREFS_MAX_AGE);
    let sent_back = set.split(';').next().unwrap().to_string() + "; other=1";
    let read = extract_cookie(Some(&sent_back), PREFS_COOKIE).unwrap();
    assert_eq!(read, v);
    assert_eq!(percent_decode(read).as_deref(), Some(json));
}
