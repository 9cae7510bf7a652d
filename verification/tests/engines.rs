use educe::engines::all_metas;
use educe::engines::arxiv::Arxiv;
use educe::engines::baidu::Baidu;
use educe::engines::bing::Bing;
use educe::engines::common::{error_detail, ErrorMessages};
use educe::engines::gitee::Gitee;
use educe::engines::github::{GitHub, RepoRecord};
use educe::engines::google::Google;
use educe::engines::googlenews::GoogleNews;
use educe::engines::is_builtin_id;
use educe::engines::jianshu::Jianshu;
use educe::engines::juejin::{unix_to_date, ArticleRecord, Juejin};
use educe::engines::pubmed::{PubMed, PubMedRecord};
use educe::engines::stackoverflow::{QuestionRecord, StackOverflow};
use educe::engines::startpage::Startpage;
use educe::engines::wikipedia::{page_url_of, WikiRecord, Wikipedia};
use educe::engines::xueshu::{extract_year, Xueshu};
use educe::engines::EngineError;
use educe::models::Category;

#[test]
fn parses_google_results() {
    let html = r#"<html><body>
            <div class="g"><a href="https://x.com/1"><h3>标题一</h3></a><div class="VwiC3b">摘要一</div></div>
            <div class="g"><a href="https://x.com/2"><h3>标题二</h3></a></div>
        </body></html>"#;
    let g = Google;
    let out = g.parse_html(html);
    assert_eq!(out.len(), 2);
    assert_eq!(out[0].0, "标题一");
    assert_eq!(out[0].1, "https://x.com/1");
    assert_eq!(out[0].2, "摘要一");
    assert_eq!(out[1].0, "标题二");
}

#[test]
fn parses_startpage_results() {
    let html = r#"<html><body>
            <section class="w-gl__result">
              <h2 class="w-gl__result-title"><a href="https://example.com/rust">Rust 教程</a></h2>
              <p class="w-gl__description">摘要一</p>
            </section>
            <section class="w-gl__result">
              <h2 class="w-gl__result-title"><a href="/relative">相对链接</a></h2>
            </section>
        </body></html>"#;
    let sp = Startpage;
    let out = sp.parse_html(html, 10);
    assert_eq!(out.len(), 2);
    assert_eq!(out[0].title, "Rust 教程");
    assert_eq!(out[0].url, "https://example.com/rust");
    assert_eq!(out[1].url, "https://www.startpage.com/relative");
    assert_eq!(out[0].source, "startpage");
}

#[test]
fn startpage_falls_back_to_older_layouts() {
    let sp = Startpage;
    let old = "<section class='result'><h2><a href='https://e.com/p'>Old layout</a></h2></section>";
    let out = sp.parse_html(old, 10);
    assert_eq!(out.len(), 1);
    assert_eq!(out[0].title, "Old layout");
    assert_eq!(out[0].url, "https://e.com/p");
    assert_eq!(out[0].rank, 0);
    let div = "<div class='w-gl__result'><h2><a href='/q'>Div layout</a></h2><p class='description'>d</p></div>";
    let out = sp.parse_html(div, 10);
    assert_eq!(out.len(), 1);
    assert_eq!(out[0].url, "https://www.startpage.com/q");
    assert_eq!(out[0].snippet, "d");
    let both = "<section class='w-gl__result'><h2><a href='https://n.com/'>New</a></h2></section>\
                <section class='result'><h2><a href='https://o.com/'>Old</a></h2></section>";
    let out = sp.parse_html(both, 10);
    assert_eq!(out.len(), 1);
    assert_eq!(out[0].title, "New");
}

#[test]
fn startpage_empty_page_yields_no_results() {
    let sp = Startpage;
    assert!(sp.parse_html("<html><body></body></html>", 10).is_empty());
}

#[test]
fn parses_xueshu_results() {
    let html = r#"<html><body>
            <div class="result sc_default_result">
              <h3 class="t"><a href="https://xueshu.baidu.com/usercenter/paper/show?paperid=1">异步编程研究</a></h3>
              <div class="c_abstract">摘要一</div>
              <div class="sc_info">计算机学报 2023</div>
            </div>
            <div class="result sc_default_result">
              <h3 class="t"><a href="/paper/2">相对链接</a></h3>
            </div>
        </body></html>"#;
    let xu = Xueshu;
    let out = xu.parse_html(html, 10);
    assert_eq!(out.len(), 2);
    assert_eq!(out[0].title, "异步编程研究");
    assert_eq!(out[0].url, "https://xueshu.baidu.com/usercenter/paper/show?paperid=1");
    assert_eq!(out[0].published.as_deref(), Some("2023"));
    assert_eq!(out[1].url, "https://xueshu.baidu.com/paper/2");
    assert_eq!(out[0].source, "xueshu");
}

#[test]
fn xueshu_empty_page_yields_no_results() {
    let xu = Xueshu;
    assert!(xu.parse_html("<html><body></body></html>", 10).is_empty());
}

#[test]
fn year_extraction() {
    assert_eq!(extract_year("计算机学报 2023"), Some("2023".into()));
    assert_eq!(extract_year("无年份"), None);
}

#[test]
fn year_extraction_needs_a_whole_four_digit_run_in_range() {
    assert_eq!(extract_year("卷 12345 期 1899 年 2024"), Some("2024".into()));
    assert_eq!(extract_year("1900"), Some("1900".into()));
    assert_eq!(extract_year("2100"), None);
}

#[test]
fn xueshu_info_line_stands_in_for_missing_snippet() {
    let html = r#"<div class="result sc_default_result">
              <h3 class="t"><a href="/p/1">论文</a></h3>
              <div class="sc_info">  期刊   2001 </div>
            </div>"#;
    let out = Xueshu.parse_html(html, 10);
    assert_eq!(out.len(), 1);
    assert_eq!(out[0].snippet, "期刊 2001");
    assert_eq!(out[0].published.as_deref(), Some("2001"));
}

#[test]
fn search_urls_cap_the_result_count() {
    assert_eq!(
        Baidu.search_url("rust 异步", 100),
        "https://www.baidu.com/s?wd=rust%20%E5%BC%82%E6%AD%A5&rn=50&ie=utf-8&pn=0"
    );
    assert_eq!(
        Bing.search_url("a", 7),
        "https://www.bing.com/search?q=a&count=7&setlang=zh-hans&mkt=zh-CN&form=QBLH"
    );
    assert_eq!(
        Google.search_url("x", 500),
        "https://www.google.com/search?q=x&num=100&hl=zh-CN&gl=us"
    );
    assert_eq!(
        Arxiv.search_url("q", 20),
        "https://export.arxiv.org/api/query?search_query=all:q&start=0&max_results=20"
    );
    assert_eq!(
        GoogleNews.search_url("q"),
        "https://news.google.com/rss/search?q=q&hl=zh-CN&gl=CN&ceid=CN:zh-Hans"
    );
    assert_eq!(Xueshu.search_url("q"), "https://xueshu.baidu.com/s?wd=q&ie=utf-8");
}

#[test]
fn empty_results_give_each_engine_its_error() {
    match Baidu.finish(Vec::new()) {
        Err(EngineError::Blocked(m)) => assert_eq!(m, "无结果或触发反爬"),
        other => panic!("unexpected {other:?}"),
    }
    match Arxiv.finish(Vec::new()) {
        Err(EngineError::Parse(m)) => assert_eq!(m, "arXiv 无结果"),
        other => panic!("unexpected {other:?}"),
    }
    match Google.finish(&Vec::new(), 10) {
        Err(EngineError::Blocked(m)) => assert_eq!(m, "无结果（Google 反爬较强，建议启用 JS 渲染桥）"),
        other => panic!("unexpected {other:?}"),
    }
    assert_eq!(EngineError::Timeout.message(), "超时");
    assert!(EngineError::Http("x".into()).retryable());
    assert!(!EngineError::Blocked("x".into()).retryable());
}

#[test]
fn google_finish_ranks_by_position() {
    let parsed = vec![
        ("A - 知乎".to_string(), "https://a".to_string(), "s".to_string()),
        ("B".to_string(), "https://b".to_string(), String::new()),
    ];
    let out = Google.finish(&parsed, 1).unwrap();
    assert_eq!(out.len(), 1);
    assert_eq!(out[0].title, "A");
    assert_eq!(out[0].rank, 0);
    assert_eq!(out[0].source, "google");
}

#[test]
fn parses_arxiv_feed() {
    let xml = r#"<feed>
      <entry><title> Deep
        Learning </title><id>http://arxiv.org/abs/1</id><summary>About it</summary><published>2023-05-01T00:00:00Z</published></entry>
      <entry><title></title><id>http://arxiv.org/abs/2</id></entry>
      <entry><title>Second</title><id>http://arxiv.org/abs/3</id></entry>
    </feed>"#;
    let out = Arxiv.parse_feed(xml, 10);
    assert_eq!(out.len(), 2);
    assert_eq!(out[0].title, "Deep Learning");
    assert_eq!(out[0].url, "http://arxiv.org/abs/1");
    assert_eq!(out[0].snippet, "About it");
    assert_eq!(out[0].published.as_deref(), Some("2023-05-01"));
    assert_eq!(out[1].rank, 1);
    assert_eq!(out[1].published, None);
}

#[test]
fn parses_googlenews_dates() {
    let xml = r#"<rss><channel>
      <item><title>新闻</title><guid>g</guid><description>&lt;b&gt;要闻&lt;/b&gt;</description><pubDate>Fri, 21 Aug 2026 10:00:00 GMT</pubDate></item>
    </channel></rss>"#;
    // `link` is a void element for the HTML parser, so an RSS link has no text
    // and the item is skipped, as with the upstream engine.
    let out = GoogleNews.parse_feed(xml, 10);
    assert!(out.is_empty());
}

fn repo(name: Option<&str>, url: Option<&str>, stars: Option<i64>, pushed: Option<&str>) -> RepoRecord {
    RepoRecord {
        full_name: name.map(String::from),
        html_url: url.map(String::from),
        description: Some("A crate".into()),
        stargazers_count: stars,
        language: None,
        pushed_at: pushed.map(String::from),
    }
}

#[test]
fn github_results_keep_the_api_index_as_rank() {
    let items = vec![
        repo(None, Some("https://github.com/x"), Some(1), None),
        repo(Some("a/b"), Some("https://github.com/a/b"), Some(42), Some("2024-01-02T03:04:05Z")),
    ];
    let out = GitHub.results(&items, 10);
    assert_eq!(out.len(), 1);
    assert_eq!(out[0].rank, 1);
    assert_eq!(out[0].title, "a/b");
    assert_eq!(out[0].snippet, "⭐ 42 · 未知语言 — A crate");
    assert_eq!(out[0].published.as_deref(), Some("2024-01-02"));
    assert!(matches!(GitHub.status_error(403), Some(EngineError::Blocked(_))));
    assert!(GitHub.status_error(200).is_none());
}

#[test]
fn github_short_push_date_is_skipped() {
    let items = vec![
        repo(Some("a/b"), Some("https://github.com/a/b"), None, Some("2024")),
        repo(Some("c/d"), Some("https://github.com/c/d"), None, Some("2024-02-03T00:00:00Z")),
    ];
    let out = GitHub.results(&items, 10);
    assert_eq!(out.len(), 1);
    assert_eq!(out[0].title, "c/d");
    assert_eq!(out[0].rank, 1);
    assert!(GitHub.finish(GitHub.results(&items[..1].to_vec(), 10)).is_err());
}

#[test]
fn gitee_api_and_page() {
    let items = vec![
        repo(Some(""), Some("https://gitee.com/x"), None, None),
        repo(Some("o/r"), Some("https://gitee.com/o/r"), Some(-3), Some("2023")),
    ];
    let out = Gitee.api_results(&items, 10);
    assert_eq!(out.len(), 1);
    assert_eq!(out[0].rank, 1);
    assert_eq!(out[0].snippet, "⭐ -3 · 未知语言 — A crate");
    assert_eq!(out[0].published, None);
    let html = r#"<ul><li class="project-item"><a class="title" href="/o/r">o/r</a><div class="desc">d</div></li></ul>"#;
    let page = Gitee.parse_html(html, 10);
    assert_eq!(page.len(), 1);
    assert_eq!(page[0].url, "https://gitee.com/o/r");
    match Gitee.api_status_error(500) {
        Some(EngineError::Http(m)) => assert_eq!(m, "API HTTP 500"),
        other => panic!("unexpected {other:?}"),
    }
}

#[test]
fn stackoverflow_snippet_lists_four_tags() {
    let q = QuestionRecord {
        title: Some("How?".into()),
        link: Some("https://stackoverflow.com/q/1".into()),
        view_count: Some(12),
        is_answered: Some(true),
        tags: vec![
            Some("a".into()),
            None,
            Some("b".into()),
            Some("c".into()),
            Some("d".into()),
            Some("e".into()),
        ],
    };
    let out = StackOverflow.results(&vec![q], 10);
    assert_eq!(out[0].snippet, "👁 12 · ✔ 已解答 · 标签: a / b / c / d");
}

#[test]
fn juejin_dates_and_fallbacks() {
    assert_eq!(unix_to_date(0).as_deref(), Some("1970-01-01"));
    assert_eq!(unix_to_date(1_700_000_000).as_deref(), Some("2023-11-14"));
    assert_eq!(unix_to_date(-86_400).as_deref(), Some("1969-12-31"));
    assert_eq!(unix_to_date(951_782_400).as_deref(), Some("2000-02-29"));
    assert_eq!(unix_to_date(951_868_800).as_deref(), Some("2000-03-01"));
    assert_eq!(unix_to_date(4_107_456_000).as_deref(), Some("2100-02-28"));
    assert_eq!(unix_to_date(-62_135_596_800 - 86_400).as_deref(), Some("0000-12-31"));
    let a = ArticleRecord {
        title: None,
        info_title: Some("标题".into()),
        url: Some("https://juejin.cn/post/1".into()),
        info_url: None,
        summary: None,
        info_brief: Some("<p>简介</p>".into()),
        info_ctime: Some(86_400),
    };
    let out = Juejin.results(&vec![a], 10);
    assert_eq!(out[0].title, "标题");
    assert_eq!(out[0].snippet, "简介");
    assert_eq!(out[0].published.as_deref(), Some("1970-01-02"));
    match Juejin.status_error(404) {
        Some(EngineError::Http(m)) => assert_eq!(m, "HTTP 404"),
        other => panic!("unexpected {other:?}"),
    }
}

#[test]
fn pubmed_urls_and_records() {
    let ids = vec!["11".to_string(), "22".to_string()];
    assert_eq!(
        PubMed.summary_url(&ids).unwrap(),
        "https://eutils.ncbi.nlm.nih.gov/entrez/eutils/esummary.fcgi?db=pubmed&id=11,22&retmode=json"
    );
    assert!(matches!(PubMed.summary_url(&Vec::new()), Err(EngineError::Parse(_))));
    let recs = vec![
        None,
        Some(PubMedRecord {
            title: Some("Study".into()),
            fulljournalname: Some("Nature".into()),
            pubdate: Some("2020 Jan".into()),
        }),
    ];
    let out = PubMed.results(&ids, &recs, 10);
    assert_eq!(out.len(), 1);
    assert_eq!(out[0].url, "https://pubmed.ncbi.nlm.nih.gov/22/");
    assert_eq!(out[0].snippet, "Nature · 2020 Jan");
    assert_eq!(out[0].published.as_deref(), Some("2020"));
    assert_eq!(out[0].rank, 0);
    // a year cut inside a character: the record is skipped, not fatal
    let odd = vec![Some(PubMedRecord { title: Some("T".into()), fulljournalname: None, pubdate: Some("202é".into()) })];
    assert!(PubMed.results(&vec!["33".to_string()], &odd, 10).is_empty());
}

#[test]
fn wikipedia_page_urls() {
    assert_eq!(page_url_of("Rust 语言"), "https://zh.wikipedia.org/wiki/Rust%5F%E8%AF%AD%E8%A8%80");
    let hits = vec![WikiRecord {
        title: Some("Rust".into()),
        snippet: Some("<span class=\"searchmatch\">Rust</span> 是".into()),
        timestamp: Some("2024-05-06T07:08:09Z".into()),
    }];
    let out = Wikipedia.results(&hits, 10);
    assert_eq!(out[0].snippet, "Rust 是");
    assert_eq!(out[0].published.as_deref(), Some("2024-05-06"));
}

#[test]
fn rendered_pages_fall_back_to_generic_extraction() {
    let html = r#"<html><body><a href="https://example.com/article/1">一篇相当长的文章标题</a></body></html>"#;
    let out = Jianshu.results_from_page(html, 10).unwrap();
    assert_eq!(out.len(), 1);
    assert_eq!(out[0].source, "jianshu");
    assert!(matches!(Jianshu.results_from_page("<html></html>", 10), Err(EngineError::Blocked(_))));
}

#[test]
fn registry_lists_twenty_sources() {
    let metas = all_metas();
    assert_eq!(metas.len(), 20);
    assert_eq!(metas[5].id, "startpage");
    assert!(metas.iter().any(|m| m.id == "xueshu" && m.category == Category::Academic));
    assert!(is_builtin_id("csdn"));
    assert!(!is_builtin_id("mysource"));
}

#[test]
fn error_chains_render_on_one_line() {
    let e = ErrorMessages { chain: vec!["请求失败(bing): u".into(), "dns error".into(), "timed out".into()] };
    assert_eq!(error_detail(&e), "请求失败(bing): u ← dns error ← timed out");
}
