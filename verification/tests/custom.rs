use educe::custom::{add_custom_config, custom_ids, remove_custom_config, CustomEngine, CustomEngineConfig};
use educe::engines::EngineError;
use educe::models::Category;

fn config() -> CustomEngineConfig {
    CustomEngineConfig {
        id: "my_src".into(),
        name: "Mine".into(),
        category: "code".into(),
        needs_js: false,
        url_template: "https://s.example/find?q={query}&x={query}".into(),
        result_selector: "div.hit".into(),
        title_selector: "h3".into(),
        link_selector: "a".into(),
        snippet_selector: " ".into(),
    }
}

#[test]
fn validation_reports_the_first_broken_rule() {
    assert!(config().validate().is_ok());
    let mut c = config();
    c.id = "x".into();
    assert_eq!(c.validate().unwrap_err(), "id 需为 2~32 位字母/数字/下划线");
    let mut c = config();
    c.id = "有中文".into();
    assert!(c.validate().is_err());
    let mut c = config();
    c.name = "  ".into();
    assert_eq!(c.validate().unwrap_err(), "名称不能为空");
    let mut c = config();
    c.url_template = "https://s.example/".into();
    assert_eq!(c.validate().unwrap_err(), "URL 模板必须包含 {query} 占位符");
    let mut c = config();
    c.title_selector = "".into();
    assert_eq!(c.validate().unwrap_err(), "结果容器与标题选择器不能为空");
    let mut c = config();
    c.result_selector = "div[".into();
    assert_eq!(c.validate().unwrap_err(), "结果选择器不是合法 CSS 选择器: div[");
    assert_eq!(CustomEngineConfig::default().category, "general");
}

#[test]
fn custom_engine_builds_urls_and_parses_pages() {
    let e = CustomEngine::new(config()).ok().unwrap();
    assert_eq!(e.meta().category, Category::Code);
    assert_eq!(e.search_url("a b"), "https://s.example/find?q=a%20b&x=a%20b");
    let html = r#"<div class="hit"><h3>Title  one</h3><a href="/p/1">go</a><p>s</p></div>
                  <div class="hit"><h3></h3><a href="/p/2">go</a></div>"#;
    let out = e.parse_html(html, "https://s.example/find?q=a", 10);
    assert_eq!(out.len(), 1);
    assert_eq!(out[0].title, "Title one");
    assert_eq!(out[0].url, "https://s.example/p/1");
    assert_eq!(out[0].snippet, "");
    assert_eq!(out[0].source, "my_src");
    assert!(matches!(
        e.results_from_page("<html></html>", "https://s.example/", 10),
        Err(EngineError::Parse(_))
    ));
}

#[test]
fn custom_list_add_replace_and_remove() {
    let mut list: Vec<CustomEngineConfig> = Vec::new();
    assert!(add_custom_config(&mut list, &config()).is_ok());
    let mut renamed = config();
    renamed.name = "Renamed".into();
    assert!(add_custom_config(&mut list, &renamed).is_ok());
    assert_eq!(list.len(), 1);
    assert_eq!(list[0].name, "Renamed");
    let mut clash = config();
    clash.id = "bing".into();
    assert_eq!(add_custom_config(&mut list, &clash).unwrap_err(), "id `bing` 与内置引擎冲突");
    assert_eq!(custom_ids(&list), vec!["my_src".to_string()]);
    assert_eq!(remove_custom_config(&mut list, "nope").unwrap_err(), "自定义引擎 `nope` 不存在");
    assert!(remove_custom_config(&mut list, "my_src").is_ok());
    assert!(list.is_empty());
}
