//! Core data model: search results, engine metadata, per-engine reports.
use vstd::prelude::*;

use crate::text::{
    chars_to_string, ends_with, ends_with_chars, matches_at, is_whitespace, is_ws, owned, rfind, rfind_chars,
    slice_chars, str_chars, trim, trim_chars, trim_end, trim_end_len,
};

verus! {

/// One search result as produced by an engine (before cross-source merging).
///
/// The relevance score that the ranking step attaches is kept outside the
/// library; within it a result is ordered by `rank`.
#[derive(Debug, Clone)]
pub struct SearchResult {
    /// Title.
    pub title: String,
    /// Link.
    pub url: String,
    /// Snippet.
    pub snippet: String,
    /// Source engine id(s), comma separated once merged (e.g. "bing,baidu").
    pub source: String,
    /// Position inside the producing engine's list (0-based).
    pub rank: usize,
    /// Publication date, when known (e.g. "2026-08-01").
    pub published: Option<String>,
}

/// Mathematical view of a [`SearchResult`].
pub ghost struct ResultView {
    pub title: Seq<char>,
    pub url: Seq<char>,
    pub snippet: Seq<char>,
    pub source: Seq<char>,
    pub rank: nat,
    pub published: Option<Seq<char>>,
}

pub open spec fn opt_view(o: Option<String>) -> Option<Seq<char>> {
    match o {
        Some(s) => Some(s@),
        None => None,
    }
}

impl View for SearchResult {
    type V = ResultView;

    open spec fn view(&self) -> ResultView {
        ResultView {
            title: self.title@,
            url: self.url@,
            snippet: self.snippet@,
            source: self.source@,
            rank: self.rank as nat,
            published: opt_view(self.published),
        }
    }
}

/// Views of a list of results.
pub open spec fn results_view(v: Seq<SearchResult>) -> Seq<ResultView> {
    v.map_values(|r: SearchResult| r@)
}

/// What [`SearchResult::new`] builds.
pub open spec fn new_result(
    title: Seq<char>,
    url: Seq<char>,
    snippet: Seq<char>,
    source: Seq<char>,
    rank: nat,
) -> ResultView {
    ResultView {
        title: clean_title_spec(title),
        url,
        snippet,
        source,
        rank,
        published: None,
    }
}

impl SearchResult {
    /// A copy of this result (field by field).
    pub fn duplicate(&self) -> (r: SearchResult)
        ensures
            r@ == self@,
    {
        SearchResult {
            title: self.title.clone(),
            url: self.url.clone(),
            snippet: self.snippet.clone(),
            source: self.source.clone(),
            rank: self.rank,
            published: match &self.published {
                Some(p) => Some(p.clone()),
                None => None,
            },
        }
    }

    /// A result whose title has been cleaned with [`clean_title`].
    pub fn new(title: String, url: String, snippet: String, source: &str, rank: usize) -> (r:
        SearchResult)
        ensures
            r@ == new_result(title@, url@, snippet@, source@, rank as nat),
    {
        SearchResult {
            title: clean_title(title.as_str()),
            url,
            snippet,
            source: owned(source),
            rank,
            published: None,
        }
    }
}


/// A copy of a list of results.
pub fn duplicate_results(v: &Vec<SearchResult>) -> (r: Vec<SearchResult>)
    ensures
        results_view(r@) == results_view(v@),
{
    let mut out: Vec<SearchResult> = Vec::new();
    let mut i: usize = 0;
    while i < v.len()
        invariant
            i <= v@.len(),
            out@.len() == i,
            results_view(out@) == results_view(v@.take(i as int)),
        decreases v.len() - i,
    {
        let d = v[i].duplicate();
        let ghost prev = out@;
        out.push(d);
        assert forall|k: int| 0 <= k < i + 1 implies #[trigger] results_view(out@)[k]
            == results_view(v@.take(i + 1))[k] by {
            if k < i {
                assert(out@[k] == prev[k]);
                assert(results_view(prev)[k] == results_view(v@.take(i as int))[k]);
            }
        }
        assert(results_view(out@) =~= results_view(v@.take(i + 1)));
        i += 1;
    }
    assert(v@.take(v@.len() as int) =~= v@);
    out
}

/// Known "site suffix" title patterns (such as "xxx - 知乎").
pub open spec fn title_suffixes() -> Seq<Seq<char>> {
    seq![
        " - 知乎"@,
        " - 知乎专栏"@,
        " - 百度知道"@,
        " - 百度百科"@,
        " - CSDN博客"@,
        " - CSDN"@,
        " - 简书"@,
        " - 掘金"@,
        " - 博客园"@,
        " - 菜鸟教程"@,
        " - 廖雪峰的官方网站"@,
        " - SegmentFault 思否"@,
        " - 腾讯云开发者社区"@,
        " - 阿里云开发者社区"@,
        " - 哔哩哔哩"@,
        " - 少数派"@,
        " - 虎嗅网"@,
        " - 36氪"@,
        " - 豆瓣"@,
        " - V2EX"@,
        " - Gitee"@,
        " - GitHub"@,
        " - InfoQ"@,
        "_知乎"@,
        "_百度知道"@,
        "_简书"@,
        "_CSDN博客"@
    ]
}

fn title_suffix_list() -> (r: Vec<&'static str>)
    ensures
        r@.len() == title_suffixes().len(),
        forall|i: int| 0 <= i < r@.len() ==> #[trigger] r@[i]@ == title_suffixes()[i],
{
    let r = vec![
        " - 知乎",
        " - 知乎专栏",
        " - 百度知道",
        " - 百度百科",
        " - CSDN博客",
        " - CSDN",
        " - 简书",
        " - 掘金",
        " - 博客园",
        " - 菜鸟教程",
        " - 廖雪峰的官方网站",
        " - SegmentFault 思否",
        " - 腾讯云开发者社区",
        " - 阿里云开发者社区",
        " - 哔哩哔哩",
        " - 少数派",
        " - 虎嗅网",
        " - 36氪",
        " - 豆瓣",
        " - V2EX",
        " - Gitee",
        " - GitHub",
        " - InfoQ",
        "_知乎",
        "_百度知道",
        "_简书",
        "_CSDN博客"
    ];
    assert(r@.map_values(|s: &str| s@) =~= title_suffixes());
    assert forall|i: int| 0 <= i < r@.len() implies #[trigger] r@[i]@ == title_suffixes()[i] by {
        assert(r@.map_values(|s: &str| s@)[i] == r@[i]@);
    }
    r
}

/// Separators of a short trailing site name (" | site", " - site", ...).
pub open spec fn site_separators() -> Seq<Seq<char>> {
    seq![" | "@, " - "@, " – "@, " - "@, "｜"@]
}

fn site_separator_list() -> (r: Vec<&'static str>)
    ensures
        r@.len() == site_separators().len(),
        forall|i: int| 0 <= i < r@.len() ==> #[trigger] r@[i]@ == site_separators()[i],
{
    let r = vec![" | ", " - ", " – ", " - ", "｜"];
    assert(r@.map_values(|s: &str| s@) =~= site_separators());
    assert forall|i: int| 0 <= i < r@.len() implies #[trigger] r@[i]@ == site_separators()[i] by {
        assert(r@.map_values(|s: &str| s@)[i] == r@[i]@);
    }
    r
}

/// The first suffix of `list` that `t` ends with, cut off (and the rest right-trimmed).
pub open spec fn strip_known_suffix(t: Seq<char>, list: Seq<Seq<char>>) -> Option<Seq<char>>
    decreases list.len(),
{
    if list.len() == 0 {
        None
    } else if ends_with(t, list[0]) {
        Some(trim_end(t.take(t.len() - list[0].len())))
    } else {
        strip_known_suffix(t, list.drop_first())
    }
}

/// A character that marks a trailing part as prose rather than a site name.
pub open spec fn is_site_breaker(c: char) -> bool {
    is_ws(c) || c == ',' || c == '.' || c == '、' || c == '，'
}

/// A plausible site name: 1 to 8 characters, none of them a breaker.
pub open spec fn is_short_site(site: Seq<char>) -> bool {
    1 <= site.len() <= 8 && forall|i: int| 0 <= i < site.len() ==> !is_site_breaker(#[trigger] site[i])
}

/// For the first separator whose last occurrence is followed by a short site
/// name, the part before that occurrence (right-trimmed).
pub open spec fn strip_site_suffix(t: Seq<char>, seps: Seq<Seq<char>>) -> Option<Seq<char>>
    decreases seps.len(),
{
    if seps.len() == 0 {
        None
    } else {
        match rfind(t, seps[0]) {
            Some(p) if is_short_site(t.skip(p + seps[0].len())) => Some(trim_end(t.take(p))),
            _ => strip_site_suffix(t, seps.drop_first()),
        }
    }
}

/// The cleaned title: trimmed, then without a known site suffix, or else
/// without a short ` | site` / ` - site` tail.
pub open spec fn clean_title_spec(title: Seq<char>) -> Seq<char> {
    let t = trim(title);
    if t.len() == 0 {
        t
    } else {
        match strip_known_suffix(t, title_suffixes()) {
            Some(r) => r,
            None => match strip_site_suffix(t, site_separators()) {
                Some(r) => r,
                None => t,
            },
        }
    }
}

fn short_site(t: &Vec<char>, from: usize) -> (r: bool)
    requires
        from <= t.len(),
    ensures
        r == is_short_site(t@.skip(from as int)),
{
    let n = t.len() - from;
    if n < 1 || n > 8 {
        return false;
    }
    let mut i = from;
    while i < t.len()
        invariant
            from <= i <= t.len(),
            forall|j: int| from <= j < i ==> !is_site_breaker(#[trigger] t@[j]),
        decreases t.len() - i,
    {
        let c = t[i];
        if is_whitespace(c) || c == ',' || c == '.' || c == '、' || c == '，' {
            assert(t@.skip(from as int)[i - from] == c);
            return false;
        }
        i += 1;
    }
    assert forall|k: int| 0 <= k < t@.skip(from as int).len() implies !is_site_breaker(
        #[trigger] t@.skip(from as int)[k],
    ) by {
        assert(t@.skip(from as int)[k] == t@[from + k]);
    }
    true
}

/// Cleans a title: strips known site suffixes such as "xxx - 知乎", and short
/// ` | site` / ` - site` tails (site name of at most 8 characters, with no
/// whitespace or punctuation).
pub fn clean_title(title: &str) -> (r: String)
    ensures
        r@ == clean_title_spec(title@),
{
    let raw = str_chars(title);
    let t = trim_chars(&raw);
    if t.len() == 0 {
        return chars_to_string(t.as_slice());
    }
    let suffixes = title_suffix_list();
    let mut i: usize = 0;
    assert(title_suffixes().skip(0) =~= title_suffixes());
    while i < suffixes.len()
        invariant
            t@ == trim(title@),
            t@.len() > 0,
            i <= suffixes@.len(),
            suffixes@.len() == title_suffixes().len(),
            forall|k: int| 0 <= k < suffixes@.len() ==> #[trigger] suffixes@[k]@ == title_suffixes()[k],
            strip_known_suffix(t@, title_suffixes()) == strip_known_suffix(t@, title_suffixes().skip(i as int)),
        decreases suffixes.len() - i,
    {
        let suf = str_chars(suffixes[i]);
        let ghost rest = title_suffixes().skip(i as int);
        assert(rest[0] == suf@);
        assert(rest.drop_first() =~= title_suffixes().skip(i + 1));
        if ends_with_chars(&t, &suf) {
            let cut = trim_end_len(&t, t.len() - suf.len());
            let kept = slice_chars(&t, 0, cut);
            assert(strip_known_suffix(t@, rest) == Some(trim_end(t@.take(t@.len() - suf@.len()))));
            assert(kept@ =~= trim_end(t@.take(t@.len() - suf@.len())));

            return chars_to_string(kept.as_slice());
        }
        i += 1;
    }
    assert(title_suffixes().skip(i as int).len() == 0);
    let seps = site_separator_list();
    let mut j: usize = 0;
    assert(site_separators().skip(0) =~= site_separators());
    while j < seps.len()
        invariant
            t@ == trim(title@),
            t@.len() > 0,
            j <= seps@.len(),
            seps@.len() == site_separators().len(),
            forall|k: int| 0 <= k < seps@.len() ==> #[trigger] seps@[k]@ == site_separators()[k],
            strip_known_suffix(t@, title_suffixes()) is None,
            strip_site_suffix(t@, site_separators()) == strip_site_suffix(t@, site_separators().skip(j as int)),
        decreases seps.len() - j,
    {
        let sep = str_chars(seps[j]);
        let ghost rest = site_separators().skip(j as int);
        assert(rest[0] == sep@);
        assert(rest.drop_first() =~= site_separators().skip(j + 1));
        match rfind_chars(&t, &sep) {
            Some(p) => {
                assert(matches_at(t@, p as int, sep@));
                assert(t@.len() == t.len());
                if short_site(&t, p + sep.len()) {
                    let cut = trim_end_len(&t, p);
                    let kept = slice_chars(&t, 0, cut);
                    assert(strip_site_suffix(t@, rest) == Some(trim_end(t@.take(p as int))));
                    assert(kept@ =~= trim_end(t@.take(p as int)));
                    return chars_to_string(kept.as_slice());
                }
            },
            None => {},
        }
        j += 1;
    }
    assert(site_separators().skip(j as int).len() == 0);
    chars_to_string(t.as_slice())
}

/// Engine category (grouping in the API and the front end).
#[derive(Debug, Clone, Copy, PartialEq, Eq)]
pub enum Category {
    /// General web search.
    General,
    /// Code and developer communities.
    Code,
    /// Chinese content communities.
    Chinese,
    /// Academic, encyclopedia and news.
    Academic,
}

/// The wire name of a category.
pub open spec fn category_name(c: Category) -> Seq<char> {
    match c {
        Category::General => "general"@,
        Category::Code => "code"@,
        Category::Chinese => "chinese"@,
        Category::Academic => "academic"@,
    }
}

impl Category {
    pub fn as_str(&self) -> (r: &'static str)
        ensures
            r@ == category_name(*self),
    {
        match self {
            Category::General => "general",
            Category::Code => "code",
            Category::Chinese => "chinese",
            Category::Academic => "academic",
        }
    }
}


/// Engine metadata.
#[derive(Debug, Clone)]
pub struct EngineMeta {
    /// Engine id (URL parameter, configuration key).
    pub id: String,
    /// Display name.
    pub name: String,
    pub category: Category,
    /// Whether the engine needs the JS render bridge.
    pub needs_js: bool,
}

/// (id, name, category, needs_js) of an [`EngineMeta`].
pub open spec fn meta_view(m: EngineMeta) -> (Seq<char>, Seq<char>, Category, bool) {
    (m.id@, m.name@, m.category, m.needs_js)
}

impl EngineMeta {
    /// Metadata from its parts.
    pub fn new(id: &str, name: &str, category: Category, needs_js: bool) -> (r: EngineMeta)
        ensures
            meta_view(r) == (id@, name@, category, needs_js),
    {
        EngineMeta { id: owned(id), name: owned(name), category, needs_js }
    }
}

/// Per-source outcome of one aggregated search (shown to the user).
#[derive(Debug, Clone)]
pub struct EngineReport {
    pub id: String,
    /// Number of results.
    pub count: usize,
    /// Time taken (milliseconds).
    pub time_ms: u64,
    /// Error message when the source failed.
    pub error: Option<String>,
    /// Whether one automatic retry was made (network failures).
    pub retried: bool,
}

/// Query parameters of `GET /api/search`.
#[derive(Debug, Clone)]
pub struct SearchQuery {
    /// Query (required).
    pub q: String,
    /// Comma-separated engine allow list.
    pub sources: Option<String>,
    /// Most results returned.
    pub max: Option<usize>,
    /// Results skipped (paging).
    pub offset: Option<usize>,
}

/// Serialization helper: whether a flag is off.
pub fn is_false(b: &bool) -> (r: bool)
    ensures
        r == !*b,
{
    !*b
}

} // verus!
