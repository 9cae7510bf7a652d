//! Search-source adapters: shared helpers, per-engine request and parsing
//! logic, and the engine registry.
//!
//! Fetching (HTTP, JS rendering) is done by the application; each adapter here
//! builds its request URL and turns the response into results.
pub mod arxiv;
pub mod baidu;
pub mod bing;
pub mod common;
pub mod duckduckgo;
pub mod entries;
pub mod gitee;
pub mod github;
pub mod google;
pub mod googlenews;
pub mod html;
pub mod jianshu;
pub mod juejin;
pub mod pubmed;
pub mod so360;
pub mod sogou;
pub mod stackoverflow;
pub mod startpage;
pub mod wechat;
pub mod wikipedia;
pub mod xueshu;
pub mod zhihu;

use vstd::prelude::*;

use crate::models::{meta_view, Category, EngineMeta, SearchResult};
use crate::text::owned;

verus! {

/// Why an engine produced no results.
#[derive(Debug, Clone)]
pub enum EngineError {
    /// Network / HTTP failure.
    Http(String),
    /// Anti-bot page, rate limit or missing JS bridge.
    Blocked(String),
    /// The response could not be read.
    Parse(String),
    /// The per-source time budget ran out.
    Timeout,
}

impl EngineError {
    /// Network and timeout failures are retried once.
    pub fn retryable(&self) -> (r: bool)
        ensures
            r == (*self is Http || *self is Timeout),
    {
        match self {
            EngineError::Http(_) => true,
            EngineError::Timeout => true,
            _ => false,
        }
    }

    /// The text of an error.
    pub open spec fn message_spec(&self) -> Seq<char> {
        match *self {
            EngineError::Http(m) => m@,
            EngineError::Blocked(m) => m@,
            EngineError::Parse(m) => m@,
            EngineError::Timeout => "超时"@,
        }
    }

    /// Human-readable message (shown in the per-source report).
    pub fn message(&self) -> (r: String)
        ensures
            r@ == self.message_spec(),
    {
        match self {
            EngineError::Http(m) => m.clone(),
            EngineError::Blocked(m) => m.clone(),
            EngineError::Parse(m) => m.clone(),
            EngineError::Timeout => owned("超时"),
        }
    }
}

/// The results, or `err` when there are none.
pub fn nonempty_or(out: Vec<SearchResult>, err: EngineError) -> (r: Result<
    Vec<SearchResult>,
    EngineError,
>)
    ensures
        out@.len() > 0 ==> r == Ok::<Vec<SearchResult>, EngineError>(out),
        out@.len() == 0 ==> r == Err::<Vec<SearchResult>, EngineError>(err),
{
    if out.len() == 0 {
        Err(err)
    } else {
        Ok(out)
    }
}

/// (id, name, category, needs JS) of every built-in source, in display order.
pub open spec fn all_metas_spec() -> Seq<(Seq<char>, Seq<char>, Category, bool)> {
    seq![
        ("baidu"@, "百度"@, Category::General, false),
        ("bing"@, "必应"@, Category::General, false),
        ("duckduckgo"@, "DuckDuckGo"@, Category::General, false),
        ("sogou"@, "搜狗"@, Category::General, false),
        ("so360"@, "360 搜索"@, Category::General, false),
        ("startpage"@, "Startpage"@, Category::General, false),
        ("google"@, "Google"@, Category::General, true),
        ("github"@, "GitHub"@, Category::Code, false),
        ("stackoverflow"@, "Stack Overflow"@, Category::Code, false),
        ("gitee"@, "Gitee"@, Category::Code, false),
        ("juejin"@, "掘金"@, Category::Code, false),
        ("arxiv"@, "arXiv"@, Category::Academic, false),
        ("pubmed"@, "PubMed"@, Category::Academic, false),
        ("wikipedia"@, "维基百科"@, Category::Academic, false),
        ("googlenews"@, "Google 新闻"@, Category::Academic, false),
        ("xueshu"@, "百度学术"@, Category::Academic, false),
        ("zhihu"@, "知乎"@, Category::Chinese, true),
        ("csdn"@, "CSDN"@, Category::Chinese, true),
        ("jianshu"@, "简书"@, Category::Chinese, true),
        ("wechat"@, "微信公众号"@, Category::Chinese, true),
    ]
}

/// Metadata of every built-in source (for `/api/sources`).
pub fn all_metas() -> (r: Vec<EngineMeta>)
    ensures
        r@.map_values(|m: EngineMeta| meta_view(m)) == all_metas_spec(),
{
    let mut v: Vec<EngineMeta> = Vec::new();
    v.push(EngineMeta::new("baidu", "百度", Category::General, false));
    v.push(EngineMeta::new("bing", "必应", Category::General, false));
    v.push(EngineMeta::new("duckduckgo", "DuckDuckGo", Category::General, false));
    v.push(EngineMeta::new("sogou", "搜狗", Category::General, false));
    v.push(EngineMeta::new("so360", "360 搜索", Category::General, false));
    v.push(EngineMeta::new("startpage", "Startpage", Category::General, false));
    v.push(EngineMeta::new("google", "Google", Category::General, true));
    v.push(EngineMeta::new("github", "GitHub", Category::Code, false));
    v.push(EngineMeta::new("stackoverflow", "Stack Overflow", Category::Code, false));
    v.push(EngineMeta::new("gitee", "Gitee", Category::Code, false));
    v.push(EngineMeta::new("juejin", "掘金", Category::Code, false));
    v.push(EngineMeta::new("arxiv", "arXiv", Category::Academic, false));
    v.push(EngineMeta::new("pubmed", "PubMed", Category::Academic, false));
    v.push(EngineMeta::new("wikipedia", "维基百科", Category::Academic, false));
    v.push(EngineMeta::new("googlenews", "Google 新闻", Category::Academic, false));
    v.push(EngineMeta::new("xueshu", "百度学术", Category::Academic, false));
    v.push(EngineMeta::new("zhihu", "知乎", Category::Chinese, true));
    v.push(EngineMeta::new("csdn", "CSDN", Category::Chinese, true));
    v.push(EngineMeta::new("jianshu", "简书", Category::Chinese, true));
    v.push(EngineMeta::new("wechat", "微信公众号", Category::Chinese, true));
    assert(v@.map_values(|m: EngineMeta| meta_view(m)) =~= all_metas_spec());
    v
}

/// The ids of the built-in sources, in display order.
pub open spec fn builtin_ids() -> Seq<Seq<char>> {
    all_metas_spec().map_values(|m: (Seq<char>, Seq<char>, Category, bool)| m.0)
}

/// Whether `id` is the id of a built-in source.
pub fn is_builtin_id(id: &str) -> (r: bool)
    ensures
        r == builtin_ids().contains(id@),
{
    let metas = all_metas();
    let ghost ids = builtin_ids();
    assert(metas@.map_values(|m: EngineMeta| meta_view(m).0) =~= ids);
    let mut i: usize = 0;
    while i < metas.len()
        invariant
            i <= metas@.len(),
            metas@.map_values(|m: EngineMeta| meta_view(m).0) == ids,
            ids == builtin_ids(),
            forall|k: int| 0 <= k < i ==> #[trigger] ids[k] != id@,
        decreases metas.len() - i,
    {
        assert(ids[i as int] == metas@[i as int].id@);
        if crate::text::str_eq(metas[i].id.as_str(), id) {
            assert(ids[i as int] == id@);
            return true;
        }
        i += 1;
    }
    false
}

} // verus!
