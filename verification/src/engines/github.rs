//! GitHub repository search (official REST API, no authentication; about
//! ten searches a minute). The application decodes the JSON `items` into
//! [`RepoRecord`]s; this module builds the request and the results.
use vstd::prelude::*;

use crate::engines::common::{clip, clip_spec, query_encoded, query_url_n};
use crate::engines::entries::{
    entries_view, opt_entry_view, rank_entries, ranked_entries, Entry, EntryView,
};
use crate::engines::EngineError;
use crate::models::{meta_view, opt_view, results_view, Category, EngineMeta, ResultView, SearchResult};
use crate::text::{
    chars_to_string, decimal, owned, push_signed_decimal, push_str, signed_decimal, slice_if_long,
    slice_if_long_str, cut_fails, str_chars,
};

verus! {

/// Accept header the API asks for.
pub const ACCEPT: &'static str = "application/vnd.github+json";

/// The fields of one repository of a search response (each `None` when
/// missing or not of the expected JSON type).
#[derive(Debug, Clone)]
pub struct RepoRecord {
    pub full_name: Option<String>,
    pub html_url: Option<String>,
    pub description: Option<String>,
    pub stargazers_count: Option<i64>,
    pub language: Option<String>,
    pub pushed_at: Option<String>,
}

/// Plain view of a [`RepoRecord`].
pub ghost struct RepoView {
    pub full_name: Option<Seq<char>>,
    pub html_url: Option<Seq<char>>,
    pub description: Option<Seq<char>>,
    pub stargazers_count: Option<i64>,
    pub language: Option<Seq<char>>,
    pub pushed_at: Option<Seq<char>>,
}

impl View for RepoRecord {
    type V = RepoView;

    open spec fn view(&self) -> RepoView {
        RepoView {
            full_name: opt_view(self.full_name),
            html_url: opt_view(self.html_url),
            description: opt_view(self.description),
            stargazers_count: self.stargazers_count,
            language: opt_view(self.language),
            pushed_at: opt_view(self.pushed_at),
        }
    }
}

pub open spec fn repos_view(v: Seq<RepoRecord>) -> Seq<RepoView> {
    v.map_values(|r: RepoRecord| r@)
}

pub open spec fn or_text(o: Option<Seq<char>>, d: Seq<char>) -> Seq<char> {
    match o {
        Some(s) => s,
        None => d,
    }
}

/// "⭐ {stars} · {language}", followed by " — {description}" when there is one.
pub open spec fn repo_snippet(stars: i64, lang: Seq<char>, desc: Seq<char>) -> Seq<char> {
    let head = "⭐ "@ + signed_decimal(stars as int) + " · "@ + lang;
    if desc.len() == 0 {
        head
    } else {
        head + " — "@ + desc
    }
}

/// The snippet of a repository: stars, language ("未知语言" when unknown)
/// and description.
pub open spec fn record_snippet(r: RepoView) -> Seq<char> {
    repo_snippet(
        match r.stargazers_count {
            Some(n) => n,
            None => 0,
        },
        or_text(r.language, "未知语言"@),
        or_text(r.description, Seq::empty()),
    )
}

/// Executable [`record_snippet`].
pub fn snippet_of(r: &RepoRecord) -> (s: String)
    ensures
        s@ == record_snippet(r@),
{
    proof {
        reveal_strlit("");
        assert(""@ =~= Seq::<char>::empty());
    }
    let stars: i64 = match r.stargazers_count {
        Some(n) => n,
        None => 0,
    };
    let lang: &str = match &r.language {
        Some(l) => l.as_str(),
        None => "未知语言",
    };
    let desc: &str = match &r.description {
        Some(d) => d.as_str(),
        None => "",
    };
    let mut v = str_chars("⭐ ");
    push_signed_decimal(&mut v, stars);
    push_str(&mut v, " · ");
    push_str(&mut v, lang);
    if !desc.is_empty() {
        push_str(&mut v, " — ");
        push_str(&mut v, desc);
    }
    chars_to_string(v.as_slice())
}

pub struct GitHub;

impl GitHub {
    /// Engine metadata.
    pub fn meta(&self) -> (r: EngineMeta)
        ensures
            meta_view(r) == ("github"@, "GitHub"@, Category::Code, false),
    {
        EngineMeta::new("github", "GitHub", Category::Code, false)
    }

    pub open spec fn url_spec(query: Seq<char>, max: nat) -> Seq<char> {
        "https://api.github.com/search/repositories?q="@ + query_encoded(query) + "&per_page="@
            + decimal(
            if max < 50 {
                max
            } else {
                50
            },
        ) + "&sort=stars"@
    }

    /// The API request URL, asking for at most 50 repositories.
    pub fn search_url(&self, query: &str, max: usize) -> (r: String)
        ensures
            r@ == Self::url_spec(query@, max as nat),
    {
        let n: usize = if max < 50 {
            max
        } else {
            50
        };
        query_url_n(
            "https://api.github.com/search/repositories?q=",
            query,
            "&per_page=",
            n as u64,
            "&sort=stars",
        )
    }

    /// The error a response status gives by itself (403: rate limited).
    pub fn status_error(&self, status: u16) -> (r: Option<EngineError>)
        ensures
            status == 403 ==> (r matches Some(EngineError::Blocked(m)) && m@
                == "GitHub API 限流（搜索接口约 10 次/分钟）"@),
            status != 403 ==> r is None,
    {
        if status == 403 {
            Some(EngineError::Blocked(owned("GitHub API 限流（搜索接口约 10 次/分钟）")))
        } else {
            None
        }
    }

    /// The entry a repository makes (none without a name or a URL).
    pub open spec fn entry_spec(r: RepoView) -> Option<EntryView> {
        match (r.full_name, r.html_url) {
            (Some(name), Some(url)) => Some(
                (
                    name,
                    url,
                    clip_spec(record_snippet(r), 300),
                    match r.pushed_at {
                        Some(p) => slice_if_long(p, 0, 0, 10),
                        None => None,
                    },
                ),
            ),
            _ => None,
        }
    }

    /// The date of this repository cannot be cut at its tenth byte
    /// (`pushed_at` shorter than ten bytes, or that byte inside a character);
    /// such a repository is skipped.
    pub open spec fn bad_spec(r: RepoView) -> bool {
        match r.pushed_at {
            Some(p) => r.full_name is Some && r.html_url is Some && cut_fails(p, 0, 0, 10),
            None => false,
        }
    }

    /// The entry that is kept: none when its date cannot be cut where the
    /// result's date is taken.
    pub open spec fn kept_spec(r: RepoView) -> Option<EntryView> {
        if Self::bad_spec(r) {
            None
        } else {
            Self::entry_spec(r)
        }
    }

    pub open spec fn entries_of(rs: Seq<RepoView>) -> Seq<Option<EntryView>> {
        rs.map_values(|r: RepoView| Self::kept_spec(r))
    }

    fn entry_of(r: &RepoRecord) -> (e: (Option<Entry>, bool))
        ensures
            opt_entry_view(e.0) == Self::entry_spec(r@),
            e.1 == Self::bad_spec(r@),
    {
        let (name, url) = match (&r.full_name, &r.html_url) {
            (Some(n), Some(u)) => (n, u),
            _ => return (None, false),
        };
        let (published, bad) = match &r.pushed_at {
            Some(p) => slice_if_long_str(p.as_str(), 0, 0, 10),
            None => (None, false),
        };
        let snippet = clip(snippet_of(r).as_str(), 300);
        (Some(Entry { title: name.clone(), url: url.clone(), snippet, published }), bad)
    }

    /// Each result is made from one repository record of the response,
    /// ranked by its index `k` in the list: the repository's full name as
    /// title, its `html_url` as link, and its stars, language and
    /// description as snippet.
    pub proof fn law_results_from_records(items: Seq<RepoView>, max: nat)

        ensures
            crate::engines::entries::ranked_entries(Self::entries_of(items), max, "github"@, true).len() <= max,
            forall|i: int|
                #![trigger crate::engines::entries::ranked_entries(Self::entries_of(items), max, "github"@, true)[i]]
                0 <= i < crate::engines::entries::ranked_entries(Self::entries_of(items), max, "github"@, true).len() ==> {
                    let rs = crate::engines::entries::ranked_entries(Self::entries_of(items), max, "github"@, true);
                    &&& rs[i].source == "github"@
                    &&& exists|k: int| #![trigger items[k]] 0 <= k < items.len() && (match (items[k].full_name, items[k].html_url) {
                    (Some(n), Some(u)) => rs[i].title == crate::models::clean_title_spec(n) && rs[i].url == u && rs[i].rank == k
                        && rs[i].snippet == crate::engines::common::clip_spec(record_snippet(items[k]), 300),
                    _ => false,
                })
                },
    {
        let es = Self::entries_of(items);
        crate::engines::entries::lemma_ranked_entries_from(es, max, "github"@, true);
        let rs = crate::engines::entries::ranked_entries(es, max, "github"@, true);
        assert forall|i: int| #![trigger rs[i]] 0 <= i < rs.len() implies rs[i].source == "github"@
            && exists|k: int| #![trigger items[k]] 0 <= k < items.len() && (match (items[k].full_name, items[k].html_url) {
                    (Some(n), Some(u)) => rs[i].title == crate::models::clean_title_spec(n) && rs[i].url == u && rs[i].rank == k
                        && rs[i].snippet == crate::engines::common::clip_spec(record_snippet(items[k]), 300),
                    _ => false,
                }) by {
            let k = choose|k: int|
                #![trigger es[k]]
                0 <= k < es.len() && (es[k] matches Some(e) && rs[i] == crate::engines::entries::entry_result(
                    e,
                    "github"@,
                    if true {
                        k as nat
                    } else {
                        i as nat
                    },
                ));
            assert(0 <= k < items.len());
        }
    }

    /// No usable record is lost: when `max` is at least the number of
    /// records, every repository with a full name and a link (and no push date to cut) yields a result made from it.
    pub proof fn law_records_give_results(items: Seq<RepoView>, max: nat)
        requires
            max >= items.len(),
        ensures
            forall|k: int|
                #![trigger items[k]]
                0 <= k < items.len() ==> match (items[k].full_name, items[k].html_url, items[k].pushed_at) {
                    (Some(n), Some(u), None) => exists|i: int| #![trigger crate::engines::entries::ranked_entries(Self::entries_of(items), max, "github"@, true)[i]] 0 <= i < crate::engines::entries::ranked_entries(Self::entries_of(items), max, "github"@, true).len() && crate::engines::entries::ranked_entries(Self::entries_of(items), max, "github"@, true)[i].title == crate::models::clean_title_spec(n)
                        && crate::engines::entries::ranked_entries(Self::entries_of(items), max, "github"@, true)[i].url == u && crate::engines::entries::ranked_entries(Self::entries_of(items), max, "github"@, true)[i].rank == k && crate::engines::entries::ranked_entries(Self::entries_of(items), max, "github"@, true)[i].snippet == crate::engines::common::clip_spec(record_snippet(items[k]), 300),
                    _ => true,
                },
    {
        let es = Self::entries_of(items);
        crate::engines::entries::lemma_entries_to_results(es, max, "github"@, true);
        let rs = crate::engines::entries::ranked_entries(Self::entries_of(items), max, "github"@, true);
        assert forall|k: int| #![trigger items[k]] 0 <= k < items.len() implies match (items[k].full_name, items[k].html_url, items[k].pushed_at) {
                    (Some(n), Some(u), None) => exists|i: int| #![trigger rs[i]] 0 <= i < rs.len() && rs[i].title == crate::models::clean_title_spec(n)
                        && rs[i].url == u && rs[i].rank == k && rs[i].snippet == crate::engines::common::clip_spec(record_snippet(items[k]), 300),
                    _ => true,
                } by {
            assert(es[k] == es[k]);
        }
    }

    /// The results of the `items` of a response, ranked by their index in
    /// the list, at most `max`, skipping a repository whose date cannot be
    /// cut.
    pub fn results(&self, items: &Vec<RepoRecord>, max: usize) -> (r: Vec<SearchResult>)
        ensures
            results_view(r@) == ranked_entries(
                Self::entries_of(repos_view(items@)),
                max as nat,
                "github"@,
                true,
            ),
    {
        let ghost rv = repos_view(items@);
        let mut es: Vec<Option<Entry>> = Vec::new();
        let mut i: usize = 0;
        while i < items.len()
            invariant
                i <= items@.len(),
                rv == repos_view(items@),
                es@.len() == i,
                entries_view(es@) == Self::entries_of(rv.take(i as int)),
            decreases items.len() - i,
        {
            let (e, bad) = Self::entry_of(&items[i]);
            let ghost prev = es@;
            es.push(if bad {
                None
            } else {
                e
            });
            assert forall|k: int| 0 <= k < i + 1 implies #[trigger] entries_view(es@)[k]
                == Self::entries_of(rv.take(i + 1))[k] by {
                if k < i {
                    assert(es@[k] == prev[k]);
                    assert(entries_view(prev)[k] == Self::entries_of(rv.take(i as int))[k]);
                }
            }
            assert(entries_view(es@) =~= Self::entries_of(rv.take(i + 1)));
            i += 1;
        }
        assert(rv.take(items@.len() as int) =~= rv);
        rank_entries(es, "github", max, true)
    }

    /// The results, or this engine's error when there are none.
    pub fn finish(&self, out: Vec<SearchResult>) -> (r: Result<Vec<SearchResult>, EngineError>)
        ensures
            out@.len() > 0 ==> r == Ok::<Vec<SearchResult>, EngineError>(out),
            out@.len() == 0 ==> (r matches Err(EngineError::Parse(m)) && m@ == "GitHub 无结果"@),
    {
        if out.len() == 0 {
            return Err(EngineError::Parse(owned("GitHub 无结果")));
        }
        Ok(out)
    }
}

} // verus!
