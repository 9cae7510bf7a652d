//! Custom search sources, added from the settings page without code: a URL
//! template (`{query}` is replaced by the percent-encoded query) and CSS
//! selectors for the result container, title, link and snippet. When the
//! selectors find nothing, the generic extractor is the fallback.
//!
//! The list is kept in `custom_engines.json` by the application.
use vstd::prelude::*;

use crate::engines::common::{anchor_scan, encode_query_pct, generic_extract, html_anchors, query_encoded};
use crate::engines::html::{
    assemble, block_items, html_blocks, ranked, select_blocks, strs_view, Layout, LinkRule,
};
use crate::engines::{builtin_ids, is_builtin_id, EngineError};
use crate::models::{meta_view, results_view, Category, EngineMeta, ResultView, SearchResult};
use crate::text::{
    chars_to_string, contains, is_ascii_alnum, owned, push_str, replace_all, replace_str, str_chars,
    str_contains, str_eq, trim, trim_chars,
};

verus! {

/// File the custom sources are kept in (working directory).
pub const CUSTOM_FILE: &'static str = "custom_engines.json";

/// Configuration of one custom source.
#[derive(Debug, Clone)]
pub struct CustomEngineConfig {
    /// 2 to 32 ASCII letters, digits or underscores.
    pub id: String,
    /// Display name.
    pub name: String,
    /// `general`, `code`, `chinese` or `academic`.
    pub category: String,
    /// Whether pages are fetched through the JS render bridge.
    pub needs_js: bool,
    /// Search URL; `{query}` is replaced by the percent-encoded query.
    pub url_template: String,
    /// CSS selector of a result container.
    pub result_selector: String,
    /// CSS selector of the title element (inside a container).
    pub title_selector: String,
    /// CSS selector of the link element (its `href`).
    pub link_selector: String,
    /// CSS selector of the snippet element (may be blank).
    pub snippet_selector: String,
}

impl Default for CustomEngineConfig {
    fn default() -> (r: Self)
        ensures
            r.id@.len() == 0,
            r.name@.len() == 0,
            r.category@ == "general"@,
            !r.needs_js,
            r.url_template@.len() == 0,
            r.result_selector@.len() == 0,
            r.title_selector@.len() == 0,
            r.link_selector@.len() == 0,
            r.snippet_selector@.len() == 0,
    {
        proof {
            reveal_strlit("");
        }
        CustomEngineConfig {
            id: owned(""),
            name: owned(""),
            category: owned("general"),
            needs_js: false,
            url_template: owned(""),
            result_selector: owned(""),
            title_selector: owned(""),
            link_selector: owned(""),
            snippet_selector: owned(""),
        }
    }
}

/// Whether `scraper` accepts `css` as a selector (`Selector::parse` is `Ok`).
pub uninterp spec fn css_parses(css: Seq<char>) -> bool;

/// `scraper::Selector::parse(css).is_ok()`.
#[verifier::external_body]
fn selector_parses(css: &str) -> (r: bool)
    ensures
        r == css_parses(css@),
{
    scraper::Selector::parse(css).is_ok()
}

/// 2 to 32 characters, each an ASCII letter, digit or underscore.
pub open spec fn valid_id(id: Seq<char>) -> bool {
    &&& 2 <= id.len() <= 32
    &&& forall|i: int| 0 <= i < id.len() ==> #[trigger] is_ascii_alnum(id[i]) || id[i] == '_'
}

/// The first rule a configuration breaks, with its message; `None` when it
/// is valid.
pub open spec fn config_error(
    id: Seq<char>,
    name: Seq<char>,
    url_template: Seq<char>,
    result_selector: Seq<char>,
    title_selector: Seq<char>,
) -> Option<Seq<char>> {
    if !valid_id(id) {
        Some("id 需为 2~32 位字母/数字/下划线"@)
    } else if trim(name).len() == 0 {
        Some("名称不能为空"@)
    } else if !contains(url_template, "{query}"@) {
        Some("URL 模板必须包含 {query} 占位符"@)
    } else if trim(result_selector).len() == 0 || trim(title_selector).len() == 0 {
        Some("结果容器与标题选择器不能为空"@)
    } else if !css_parses(result_selector) {
        Some("结果选择器不是合法 CSS 选择器: "@ + result_selector)
    } else {
        None
    }
}

/// The category a name stands for (`general` for any other name).
pub open spec fn category_of(name: Seq<char>) -> Category {
    if name == "code"@ {
        Category::Code
    } else if name == "chinese"@ {
        Category::Chinese
    } else if name == "academic"@ {
        Category::Academic
    } else {
        Category::General
    }
}

fn id_ok(id: &str) -> (r: bool)
    ensures
        r == valid_id(id@),
{
    let v = str_chars(id);
    if v.len() < 2 || v.len() > 32 {
        return false;
    }
    let mut i: usize = 0;
    while i < v.len()
        invariant
            i <= v@.len(),
            v@ == id@,
            forall|j: int| 0 <= j < i ==> #[trigger] is_ascii_alnum(v@[j]) || v@[j] == '_',
        decreases v.len() - i,
    {
        let c = v[i];
        let ok = ('0' <= c && c <= '9') || ('a' <= c && c <= 'z') || ('A' <= c && c <= 'Z') || c
            == '_';
        if !ok {
            assert(!(is_ascii_alnum(id@[i as int]) || id@[i as int] == '_'));
            return false;
        }
        i += 1;
    }
    true
}

fn is_blank(s: &str) -> (r: bool)
    ensures
        r == (trim(s@).len() == 0),
{
    trim_chars(&str_chars(s)).len() == 0
}

impl CustomEngineConfig {
    pub open spec fn error_spec(&self) -> Option<Seq<char>> {
        config_error(
            self.id@,
            self.name@,
            self.url_template@,
            self.result_selector@,
            self.title_selector@,
        )
    }

    /// Checks the configuration; the message of the first rule it breaks.
    pub fn validate(&self) -> (r: Result<(), String>)
        ensures
            match self.error_spec() {
                Some(m) => r matches Err(e) && e@ == m,
                None => r is Ok,
            },
    {
        if !id_ok(self.id.as_str()) {
            return Err(owned("id 需为 2~32 位字母/数字/下划线"));
        }
        if is_blank(self.name.as_str()) {
            return Err(owned("名称不能为空"));
        }
        if !str_contains(self.url_template.as_str(), "{query}") {
            return Err(owned("URL 模板必须包含 {query} 占位符"));
        }
        if is_blank(self.result_selector.as_str()) || is_blank(self.title_selector.as_str()) {
            return Err(owned("结果容器与标题选择器不能为空"));
        }
        if !selector_parses(self.result_selector.as_str()) {
            let mut v = str_chars("结果选择器不是合法 CSS 选择器: ");
            push_str(&mut v, self.result_selector.as_str());
            return Err(chars_to_string(v.as_slice()));
        }
        Ok(())
    }

    /// The category of the source.
    pub fn category(&self) -> (r: Category)
        ensures
            r == category_of(self.category@),
    {
        let c = self.category.as_str();
        if str_eq(c, "code") {
            Category::Code
        } else if str_eq(c, "chinese") {
            Category::Chinese
        } else if str_eq(c, "academic") {
            Category::Academic
        } else {
            Category::General
        }
    }
}

/// A source built from a valid [`CustomEngineConfig`].
pub struct CustomEngine {
    pub config: CustomEngineConfig,
}

impl CustomEngine {
    /// The source of a configuration, or the message of the first rule it
    /// breaks.
    pub fn new(config: CustomEngineConfig) -> (r: Result<Self, String>)
        ensures
            match config.error_spec() {
                Some(m) => r matches Err(e) && e@ == m,
                None => r matches Ok(c) && c.config == config,
            },
    {
        match config.validate() {
            Ok(()) => Ok(CustomEngine { config }),
            Err(e) => Err(e),
        }
    }

    /// Source metadata.
    pub fn meta(&self) -> (r: EngineMeta)
        ensures
            meta_view(r) == (
                self.config.id@,
                self.config.name@,
                category_of(self.config.category@),
                self.config.needs_js,
            ),
    {
        EngineMeta::new(
            self.config.id.as_str(),
            self.config.name.as_str(),
            self.config.category(),
            self.config.needs_js,
        )
    }

    /// The request URL: the template with `{query}` replaced by the
    /// percent-encoded query.
    pub fn search_url(&self, query: &str) -> (r: String)
        ensures
            r@ == replace_all(self.config.url_template@, "{query}"@, query_encoded(query@)),
    {
        proof {
            reveal_strlit("{query}");
        }
        replace_str(self.config.url_template.as_str(), "{query}", encode_query_pct(query).as_str())
    }

    pub open spec fn fields(&self) -> Seq<Seq<char>> {
        seq![self.config.title_selector@, self.config.link_selector@, self.config.snippet_selector@]
    }

    /// Title from field 0, link from field 1, snippet from field 2 unless
    /// its selector is blank.
    pub open spec fn layout(&self) -> Layout {
        Layout {
            link: (1, 2),
            title: Some((0, 1)),
            snippet: (
                2,
                if trim(self.config.snippet_selector@).len() == 0 {
                    2
                } else {
                    3
                },
            ),
        }
    }

    /// The results the configured selectors find on a page fetched from
    /// `base_url` (links resolved against it).
    pub open spec fn results_spec(&self, html: Seq<char>, base_url: &str, max: nat) -> Seq<
        ResultView,
    > {
        ranked(
            block_items(
                html_blocks(html, self.config.result_selector@, self.fields()),
                self.layout(),
                LinkRule::Join(base_url),
            ),
            max,
            self.config.id@,
        )
    }

    /// Parses a page with the configured selectors.
    pub fn parse_html(&self, html: &str, base_url: &str, max: usize) -> (r: Vec<SearchResult>)
        ensures
            results_view(r@) == self.results_spec(html@, base_url, max as nat),
    {
        let fields = vec![
            self.config.title_selector.as_str(),
            self.config.link_selector.as_str(),
            self.config.snippet_selector.as_str(),
        ];
        assert(strs_view(fields@) =~= self.fields());
        let blocks = select_blocks(html, self.config.result_selector.as_str(), &fields);
        let snippet_hi: usize = if is_blank(self.config.snippet_selector.as_str()) {
            2
        } else {
            3
        };
        assemble(
            &blocks,
            Layout { link: (1, 2), title: Some((0, 1)), snippet: (2, snippet_hi) },
            LinkRule::Join(base_url),
            self.config.id.as_str(),
            max,
        )
    }

    /// The results of a page: the configured selectors first, the generic
    /// extractor when they find nothing.
    pub open spec fn page_spec(&self, html: Seq<char>, base_url: &str, max: nat) -> Seq<ResultView> {
        let own = self.results_spec(html, base_url, max);
        if own.len() > 0 {
            own
        } else {
            ranked(anchor_scan(html_anchors(html, "a[href^='http']"@)).0, max, self.config.id@)
        }
    }

    /// Results of a page fetched from `base_url`; an error when neither the
    /// selectors nor the generic extractor find anything.
    pub fn results_from_page(&self, html: &str, base_url: &str, max: usize) -> (r: Result<
        Vec<SearchResult>,
        EngineError,
    >)
        ensures
            self.page_spec(html@, base_url, max as nat).len() > 0 ==> (r matches Ok(v)
                && results_view(v@) == self.page_spec(html@, base_url, max as nat)),
            self.page_spec(html@, base_url, max as nat).len() == 0 ==> (r matches Err(
                EngineError::Parse(m),
            ) && m@ == "无结果（检查选择器是否匹配页面结构）"@),
    {
        let mut out = self.parse_html(html, base_url, max);
        if out.len() == 0 {
            out = generic_extract(html, self.config.id.as_str(), max);
        }
        if out.len() == 0 {
            return Err(EngineError::Parse(owned("无结果（检查选择器是否匹配页面结构）")));
        }
        Ok(out)
    }

    /// The error when the source needs the JS render bridge and it is not
    /// configured.
    pub fn missing_renderer(&self) -> (r: EngineError)
        ensures
            r matches EngineError::Blocked(m) && m@ == "该自定义引擎需要启用 JS 渲染桥（见设置 → JS 渲染桥）"@,
    {
        EngineError::Blocked(owned("该自定义引擎需要启用 JS 渲染桥（见设置 → JS 渲染桥）"))
    }
}

// ---- the list of custom sources ----

impl CustomEngineConfig {
    /// A copy of this configuration.
    pub fn duplicate(&self) -> (r: Self)
        ensures
            r == *self,
    {
        CustomEngineConfig {
            id: self.id.clone(),
            name: self.name.clone(),
            category: self.category.clone(),
            needs_js: self.needs_js,
            url_template: self.url_template.clone(),
            result_selector: self.result_selector.clone(),
            title_selector: self.title_selector.clone(),
            link_selector: self.link_selector.clone(),
            snippet_selector: self.snippet_selector.clone(),
        }
    }
}

/// Position of the configuration with id `id`.
pub open spec fn config_index(cs: Seq<CustomEngineConfig>, id: Seq<char>) -> Option<int>
    decreases cs.len(),
{
    if cs.len() == 0 {
        None
    } else if cs[0].id@ == id {
        Some(0)
    } else {
        match config_index(cs.drop_first(), id) {
            Some(i) => Some(i + 1),
            None => None,
        }
    }
}

/// `c` stored under its id: it replaces the configuration there, or is appended.
pub open spec fn put_config(cs: Seq<CustomEngineConfig>, c: CustomEngineConfig) -> Seq<
    CustomEngineConfig,
> {
    match config_index(cs, c.id@) {
        Some(i) => cs.update(i, c),
        None => cs.push(c),
    }
}

/// The configurations whose id is not `id`.
pub open spec fn without_config(cs: Seq<CustomEngineConfig>, id: Seq<char>) -> Seq<
    CustomEngineConfig,
>
    decreases cs.len(),
{
    if cs.len() == 0 {
        seq![]
    } else {
        let p = without_config(cs.drop_last(), id);
        if cs.last().id@ == id {
            p
        } else {
            p.push(cs.last())
        }
    }
}

/// No id occurs twice in the list.
pub open spec fn ids_unique(cs: Seq<CustomEngineConfig>) -> bool {
    forall|i: int, j: int| 0 <= i < j < cs.len() ==> #[trigger] cs[i].id@ != #[trigger] cs[j].id@
}

/// The configuration stored under id `id`.
pub open spec fn config_of(cs: Seq<CustomEngineConfig>, id: Seq<char>) -> Option<CustomEngineConfig> {
    match config_index(cs, id) {
        Some(i) => Some(cs[i]),
        None => None,
    }
}

proof fn lemma_config_index(cs: Seq<CustomEngineConfig>, id: Seq<char>)
    ensures
        match config_index(cs, id) {
            Some(i) => 0 <= i < cs.len() && cs[i].id@ == id && forall|j: int|
                0 <= j < i ==> #[trigger] cs[j].id@ != id,
            None => forall|j: int| 0 <= j < cs.len() ==> #[trigger] cs[j].id@ != id,
        },
    decreases cs.len(),
{
    if cs.len() > 0 {
        let t = cs.drop_first();
        lemma_config_index(t, id);
        assert forall|j: int| 0 < j < cs.len() implies cs[j] == #[trigger] t[j - 1] by {}
        match config_index(t, id) {
            Some(i) => {
                if cs[0].id@ != id {
                    assert forall|j: int| 0 <= j < i + 1 implies #[trigger] cs[j].id@ != id by {
                        if j > 0 {
                            assert(cs[j] == t[j - 1]);
                        }
                    }
                }
            },
            None => {
                if cs[0].id@ != id {
                    assert forall|j: int| 0 <= j < cs.len() implies #[trigger] cs[j].id@ != id by {
                        if j > 0 {
                            assert(cs[j] == t[j - 1]);
                        }
                    }
                }
            },
        }
    }
}

/// In a list without repeated ids, the configuration stored under an id is
/// the element that has it, if any.
proof fn lemma_config_of_unique(cs: Seq<CustomEngineConfig>, id: Seq<char>)
    requires
        ids_unique(cs),
    ensures
        forall|j: int| 0 <= j < cs.len() && #[trigger] cs[j].id@ == id ==> config_of(cs, id) == Some(cs[j]),
        (forall|j: int| 0 <= j < cs.len() ==> #[trigger] cs[j].id@ != id) ==> config_of(cs, id) is None,
{
    lemma_config_index(cs, id);
    assert forall|j: int| 0 <= j < cs.len() && #[trigger] cs[j].id@ == id implies config_of(cs, id) == Some(cs[j]) by {
        let i = config_index(cs, id).unwrap();
        if i < j {
            assert(cs[i].id@ != cs[j].id@);
        } else if j < i {
            assert(cs[j].id@ != id);
        }
    }
}

/// Storing a configuration keeps the ids distinct; the list then holds it
/// under its id, and what it holds under any other id is unchanged.
pub proof fn law_put_config(cs: Seq<CustomEngineConfig>, c: CustomEngineConfig)
    requires
        ids_unique(cs),
    ensures
        ids_unique(put_config(cs, c)),
        config_of(put_config(cs, c), c.id@) == Some(c),
        forall|k: Seq<char>| k != c.id@ ==> #[trigger] config_of(put_config(cs, c), k) == config_of(cs, k),
{
    lemma_config_index(cs, c.id@);
    let p = put_config(cs, c);
    match config_index(cs, c.id@) {
        Some(i) => {
            assert(p == cs.update(i, c));
            assert forall|a: int, b: int| 0 <= a < b < p.len() implies #[trigger] p[a].id@ != #[trigger] p[b].id@ by {
                if a != i && b != i {
                    assert(cs[a].id@ != cs[b].id@);
                } else if a == i {
                    assert(cs[i].id@ != cs[b].id@);
                } else {
                    assert(cs[a].id@ != cs[i].id@);
                }
            }
        },
        None => {
            assert(p == cs.push(c));
            assert forall|a: int, b: int| 0 <= a < b < p.len() implies #[trigger] p[a].id@ != #[trigger] p[b].id@ by {
                if b < cs.len() {
                    assert(cs[a].id@ != cs[b].id@);
                } else {
                    assert(p[b] == c);
                    assert(p[a] == cs[a]);
                }
            }
        },
    }
    lemma_config_of_unique(p, c.id@);
    assert(exists|j: int| 0 <= j < p.len() && #[trigger] p[j].id@ == c.id@ && p[j] == c) by {
        match config_index(cs, c.id@) {
            Some(i) => assert(p[i].id@ == c.id@ && p[i] == c),
            None => assert(p[cs.len() as int].id@ == c.id@ && p[cs.len() as int] == c),
        }
    }
    assert forall|k: Seq<char>| k != c.id@ implies #[trigger] config_of(p, k) == config_of(cs, k) by {
        lemma_config_of_unique(p, k);
        lemma_config_of_unique(cs, k);
        lemma_config_index(cs, k);
        match config_index(cs, k) {
            Some(j) => {
                assert(p[j] == cs[j]);
            },
            None => {
                assert forall|j: int| 0 <= j < p.len() implies #[trigger] p[j].id@ != k by {
                    if j < cs.len() {
                        assert(cs[j].id@ != k);
                    }
                }
            },
        }
    }
}

proof fn lemma_without_config(cs: Seq<CustomEngineConfig>, id: Seq<char>)
    requires
        ids_unique(cs),
    ensures
        ids_unique(without_config(cs, id)),
        forall|a: int| 0 <= a < without_config(cs, id).len() ==> cs.contains(#[trigger] without_config(cs, id)[a]),
        forall|a: int| 0 <= a < without_config(cs, id).len() ==> #[trigger] without_config(cs, id)[a].id@ != id,
        forall|j: int| 0 <= j < cs.len() && #[trigger] cs[j].id@ != id ==> without_config(cs, id).contains(cs[j]),
    decreases cs.len(),
{
    if cs.len() > 0 {
        let d = cs.drop_last();
        assert(ids_unique(d)) by {
            assert forall|a: int, b: int| 0 <= a < b < d.len() implies #[trigger] d[a].id@ != #[trigger] d[b].id@ by {
                assert(d[a] == cs[a] && d[b] == cs[b]);
            }
        }
        lemma_without_config(d, id);
        let w = without_config(d, id);
        let x = cs.last();
        assert forall|a: int| 0 <= a < w.len() implies #[trigger] w[a].id@ != x.id@ by {
            assert(d.contains(w[a]));
            let j = choose|j: int| 0 <= j < d.len() && d[j] == w[a];
            assert(cs[j] == d[j]);
            assert(cs[j].id@ != cs[cs.len() - 1].id@);
        }
        if x.id@ != id {
            let w2 = w.push(x);
            assert(without_config(cs, id) == w2);
            assert forall|a: int, b: int| 0 <= a < b < w2.len() implies #[trigger] w2[a].id@ != #[trigger] w2[b].id@ by {
                if b < w.len() {
                    assert(w[a].id@ != w[b].id@);
                } else {
                    assert(w2[a] == w[a]);
                }
            }
            assert forall|a: int| 0 <= a < w2.len() implies cs.contains(#[trigger] w2[a]) by {
                if a < w.len() {
                    assert(d.contains(w[a]));
                    let j = choose|j: int| 0 <= j < d.len() && d[j] == w[a];
                    assert(cs[j] == d[j]);
                } else {
                    assert(cs[cs.len() - 1] == w2[a]);
                }
            }
            assert forall|j: int| 0 <= j < cs.len() && #[trigger] cs[j].id@ != id implies w2.contains(cs[j]) by {
                if j < d.len() {
                    assert(d[j] == cs[j]);
                    assert(w.contains(d[j]));
                    let a = choose|a: int| 0 <= a < w.len() && w[a] == d[j];
                    assert(w2[a] == w[a]);
                } else {
                    assert(w2[w.len() as int] == cs[j]);
                }
            }
        } else {
            assert(without_config(cs, id) == w);
            assert forall|a: int| 0 <= a < w.len() implies cs.contains(#[trigger] w[a]) by {
                assert(d.contains(w[a]));
                let j = choose|j: int| 0 <= j < d.len() && d[j] == w[a];
                assert(cs[j] == d[j]);
            }
            assert forall|j: int| 0 <= j < cs.len() && #[trigger] cs[j].id@ != id implies w.contains(cs[j]) by {
                assert(j < d.len());
                assert(d[j] == cs[j]);
            }
        }
    }
}

/// Removing an id keeps the ids distinct; the list then holds nothing
/// under it, and what it holds under any other id is unchanged.
pub proof fn law_without_config(cs: Seq<CustomEngineConfig>, id: Seq<char>)
    requires
        ids_unique(cs),
    ensures
        ids_unique(without_config(cs, id)),
        config_of(without_config(cs, id), id) is None,
        forall|k: Seq<char>| k != id ==> #[trigger] config_of(without_config(cs, id), k) == config_of(cs, k),
{
    lemma_without_config(cs, id);
    let w = without_config(cs, id);
    lemma_config_of_unique(w, id);
    assert forall|k: Seq<char>| k != id implies #[trigger] config_of(w, k) == config_of(cs, k) by {
        lemma_config_of_unique(w, k);
        lemma_config_of_unique(cs, k);
        lemma_config_index(cs, k);
        match config_index(cs, k) {
            Some(j) => {
                assert(w.contains(cs[j]));
                let a = choose|a: int| 0 <= a < w.len() && w[a] == cs[j];
                assert(w[a].id@ == k);
            },
            None => {
                assert forall|a: int| 0 <= a < w.len() implies #[trigger] w[a].id@ != k by {
                    assert(cs.contains(w[a]));
                    let j = choose|j: int| 0 <= j < cs.len() && cs[j] == w[a];
                    assert(cs[j].id@ != k);
                }
            },
        }
    }
}

fn config_position(cs: &Vec<CustomEngineConfig>, id: &str) -> (r: Option<usize>)
    ensures
        match r {
            Some(i) => config_index(cs@, id@) == Some(i as int) && i < cs@.len(),
            None => config_index(cs@, id@) is None,
        },
{
    let mut i: usize = 0;
    assert(cs@.skip(0) =~= cs@);
    while i < cs.len()
        invariant
            i <= cs@.len(),
            config_index(cs@, id@) == match config_index(cs@.skip(i as int), id@) {
                Some(j) => Some(j + i),
                None => None,
            },
        decreases cs.len() - i,
    {
        assert(cs@.skip(i as int)[0] == cs@[i as int]);
        assert(cs@.skip(i as int).drop_first() =~= cs@.skip(i + 1));
        if str_eq(cs[i].id.as_str(), id) {
            return Some(i);
        }
        i += 1;
    }
    None
}

/// Adds a custom source to the list, or replaces the one with its id; a
/// configuration breaking a rule, or taking the id of a built-in source, is
/// refused with its message and leaves the list unchanged.
pub fn add_custom_config(configs: &mut Vec<CustomEngineConfig>, config: &CustomEngineConfig) -> (r:
    Result<(), String>)
    ensures
        match config.error_spec() {
            Some(m) => r matches Err(e) && e@ == m && final(configs)@ == old(configs)@,
            None => if builtin_ids().contains(config.id@) {
                r matches Err(e) && e@ == "id `"@ + config.id@ + "` 与内置引擎冲突"@
                    && final(configs)@ == old(configs)@
            } else {
                r is Ok && final(configs)@ == put_config(old(configs)@, *config)
            },
        },
{
    match config.validate() {
        Err(e) => return Err(e),
        Ok(()) => {},
    }
    if is_builtin_id(config.id.as_str()) {
        let mut v = str_chars("id `");
        push_str(&mut v, config.id.as_str());
        push_str(&mut v, "` 与内置引擎冲突");
        return Err(chars_to_string(v.as_slice()));
    }
    let c = config.duplicate();
    match config_position(configs, config.id.as_str()) {
        Some(i) => {
            configs.set(i, c);
        },
        None => {
            configs.push(c);
        },
    }
    Ok(())
}

/// Removes the custom source with id `id`; an error when there is none.
pub fn remove_custom_config(configs: &mut Vec<CustomEngineConfig>, id: &str) -> (r: Result<(), String>)
    ensures
        config_index(old(configs)@, id@) is None ==> (r matches Err(e) && e@ == "自定义引擎 `"@ + id@
            + "` 不存在"@ && final(configs)@ == old(configs)@),
        config_index(old(configs)@, id@) is Some ==> (r is Ok && final(configs)@ == without_config(
            old(configs)@,
            id@,
        )),
{
    if config_position(configs, id).is_none() {
        let mut v = str_chars("自定义引擎 `");
        push_str(&mut v, id);
        push_str(&mut v, "` 不存在");
        return Err(chars_to_string(v.as_slice()));
    }
    let ghost all = configs@;
    let mut kept: Vec<CustomEngineConfig> = Vec::new();
    let mut i: usize = 0;
    while i < configs.len()
        invariant
            i <= configs@.len(),
            configs@ == all,
            kept@ == without_config(all.take(i as int), id@),
        decreases configs.len() - i,
    {
        assert(all.take(i + 1).drop_last() =~= all.take(i as int));
        assert(all.take(i + 1).last() == all[i as int]);
        if !str_eq(configs[i].id.as_str(), id) {
            kept.push(configs[i].duplicate());
        }
        assert(kept@ =~= without_config(all.take(i + 1), id@));
        i += 1;
    }
    assert(all.take(all.len() as int) =~= all);
    *configs = kept;
    Ok(())
}

/// The ids of the custom sources, in order.
pub fn custom_ids(configs: &Vec<CustomEngineConfig>) -> (r: Vec<String>)
    ensures
        r@.len() == configs@.len(),
        forall|i: int| 0 <= i < r@.len() ==> #[trigger] r@[i]@ == configs@[i].id@,
{
    let mut out: Vec<String> = Vec::new();
    let mut i: usize = 0;
    while i < configs.len()
        invariant
            i <= configs@.len(),
            out@.len() == i,
            forall|k: int| 0 <= k < i ==> #[trigger] out@[k]@ == configs@[k].id@,
        decreases configs.len() - i,
    {
        out.push(configs[i].id.clone());
        i += 1;
    }
    out
}

} // verus!
