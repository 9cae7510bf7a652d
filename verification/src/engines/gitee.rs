//! Gitee. The official API v5 (`search/repositories`) is tried first; when
//! it fails or finds nothing, the search page is parsed instead (best effort:
//! `li.project-item` -> `a.title`, snippet `.desc`). The application decodes
//! the API's JSON array into [`RepoRecord`]s.
use vstd::prelude::*;

use crate::engines::common::{clip, clip_spec, query_encoded, query_url, query_url_n};
use crate::engines::entries::{
    entries_view, opt_entry_view, rank_entries, ranked_entries, Entry, EntryView,
};
use crate::engines::github::{or_text, record_snippet, repos_view, snippet_of, RepoRecord, RepoView};
use crate::engines::html::{
    assemble, block_items, html_blocks, ranked, select_blocks, strs_view, Layout, LinkRule,
};
use crate::engines::EngineError;
use crate::models::{meta_view, results_view, Category, EngineMeta, ResultView, SearchResult};
use crate::text::{
    chars_to_string, decimal, owned, push_decimal, slice_if_long, slice_if_long_str, cut_fails,
    str_chars,
};

verus! {

pub struct Gitee;

impl Gitee {
    /// Engine metadata.
    pub fn meta(&self) -> (r: EngineMeta)
        ensures
            meta_view(r) == ("gitee"@, "Gitee"@, Category::Code, false),
    {
        EngineMeta::new("gitee", "Gitee", Category::Code, false)
    }

    pub open spec fn api_url_spec(query: Seq<char>, max: nat) -> Seq<char> {
        "https://gitee.com/api/v5/search/repositories?q="@ + query_encoded(query) + "&per_page="@
            + decimal(
            if max < 50 {
                max
            } else {
                50
            },
        )
    }

    /// The API request URL, asking for at most 50 repositories.
    pub fn api_url(&self, query: &str, max: usize) -> (r: String)
        ensures
            r@ == Self::api_url_spec(query@, max as nat),
    {
        let n: usize = if max < 50 {
            max
        } else {
            50
        };
        proof {
            reveal_strlit("");
            assert(""@ =~= Seq::<char>::empty());
        }
        query_url_n("https://gitee.com/api/v5/search/repositories?q=", query, "&per_page=", n as u64, "")
    }

    pub open spec fn page_url_spec(query: Seq<char>) -> Seq<char> {
        "https://search.gitee.com/?q="@ + query_encoded(query) + "&type=repository"@
    }

    /// The search page URL.
    pub fn page_url(&self, query: &str) -> (r: String)
        ensures
            r@ == Self::page_url_spec(query@),
    {
        query_url("https://search.gitee.com/?q=", query, "&type=repository")
    }

    /// The error an API response status gives by itself (any status
    /// outside 2xx).
    pub fn api_status_error(&self, status: u16) -> (r: Option<EngineError>)
        ensures
            200 <= status <= 299 ==> r is None,
            !(200 <= status <= 299) ==> (r matches Some(EngineError::Http(m)) && m@
                == "API HTTP "@ + decimal(status as nat)),
    {
        if 200 <= status && status <= 299 {
            return None;
        }
        let mut v = str_chars("API HTTP ");
        push_decimal(&mut v, status as u64);
        Some(EngineError::Http(chars_to_string(v.as_slice())))
    }

    /// The entry a repository of the API makes (none with an empty or
    /// missing name or URL).
    pub open spec fn entry_spec(r: RepoView) -> Option<EntryView> {
        let name = or_text(r.full_name, Seq::empty());
        let url = or_text(r.html_url, Seq::empty());
        if name.len() == 0 || url.len() == 0 {
            None
        } else {
            Some(
                (
                    name,
                    url,
                    clip_spec(record_snippet(r), 300),
                    match r.pushed_at {
                        Some(p) => slice_if_long(p, 10, 0, 10),
                        None => None,
                    },
                ),
            )
        }
    }

    /// The date of this repository cannot be cut at its tenth byte; such a
    /// repository is skipped.
    pub open spec fn bad_spec(r: RepoView) -> bool {
        match r.pushed_at {
            Some(p) => Self::entry_spec(r) is Some && cut_fails(p, 10, 0, 10),
            None => false,
        }
    }

    /// The entry that is kept: none when its date cannot be cut where the
    /// result's date is taken.
    pub open spec fn kept_spec(r: RepoView) -> Option<EntryView> {
        if Self::bad_spec(r) {
            None
        } else {
            Self::entry_spec(r)
        }
    }

    pub open spec fn entries_of(rs: Seq<RepoView>) -> Seq<Option<EntryView>> {
        rs.map_values(|r: RepoView| Self::kept_spec(r))
    }

    fn entry_of(r: &RepoRecord) -> (e: (Option<Entry>, bool))
        ensures
            opt_entry_view(e.0) == Self::entry_spec(r@),
            e.1 == Self::bad_spec(r@),
    {
        proof {
            reveal_strlit("");
            assert(""@ =~= Seq::<char>::empty());
        }
        let name: &str = match &r.full_name {
            Some(n) => n.as_str(),
            None => "",
        };
        let url: &str = match &r.html_url {
            Some(u) => u.as_str(),
            None => "",
        };
        if name.is_empty() || url.is_empty() {
            return (None, false);
        }
        let (published, bad) = match &r.pushed_at {
            Some(p) => slice_if_long_str(p.as_str(), 10, 0, 10),
            None => (None, false),
        };
        let snippet = clip(snippet_of(r).as_str(), 300);
        (Some(Entry { title: owned(name), url: owned(url), snippet, published }), bad)
    }

    /// Each result is made from one repository record of the API response,
    /// ranked by its index `k` in the list: its full name as title, its
    /// `html_url` as link, both non-empty, and its stars, language and
    /// description as snippet.
    pub proof fn law_results_from_records(items: Seq<RepoView>, max: nat)

        ensures
            crate::engines::entries::ranked_entries(Self::entries_of(items), max, "gitee"@, true).len() <= max,
            forall|i: int|
                #![trigger crate::engines::entries::ranked_entries(Self::entries_of(items), max, "gitee"@, true)[i]]
                0 <= i < crate::engines::entries::ranked_entries(Self::entries_of(items), max, "gitee"@, true).len() ==> {
                    let rs = crate::engines::entries::ranked_entries(Self::entries_of(items), max, "gitee"@, true);
                    &&& rs[i].source == "gitee"@
                    &&& exists|k: int| #![trigger items[k]] 0 <= k < items.len() && (or_text(items[k].full_name, Seq::empty()).len() > 0 && or_text(items[k].html_url, Seq::empty()).len() > 0
                    && rs[i].title == crate::models::clean_title_spec(or_text(items[k].full_name, Seq::empty())) && rs[i].url == or_text(items[k].html_url, Seq::empty())
                    && rs[i].rank == k && rs[i].snippet == crate::engines::common::clip_spec(record_snippet(items[k]), 300))
                },
    {
        let es = Self::entries_of(items);
        crate::engines::entries::lemma_ranked_entries_from(es, max, "gitee"@, true);
        let rs = crate::engines::entries::ranked_entries(es, max, "gitee"@, true);
        assert forall|i: int| #![trigger rs[i]] 0 <= i < rs.len() implies rs[i].source == "gitee"@
            && exists|k: int| #![trigger items[k]] 0 <= k < items.len() && (or_text(items[k].full_name, Seq::empty()).len() > 0 && or_text(items[k].html_url, Seq::empty()).len() > 0
                    && rs[i].title == crate::models::clean_title_spec(or_text(items[k].full_name, Seq::empty())) && rs[i].url == or_text(items[k].html_url, Seq::empty())
                    && rs[i].rank == k && rs[i].snippet == crate::engines::common::clip_spec(record_snippet(items[k]), 300)) by {
            let k = choose|k: int|
                #![trigger es[k]]
                0 <= k < es.len() && (es[k] matches Some(e) && rs[i] == crate::engines::entries::entry_result(
                    e,
                    "gitee"@,
                    if true {
                        k as nat
                    } else {
                        i as nat
                    },
                ));
            assert(0 <= k < items.len());
        }
    }

    /// No usable record is lost: when `max` is at least the number of
    /// records, every repository with a non-empty full name and link (and no push date to cut) yields a result made from it.
    pub proof fn law_records_give_results(items: Seq<RepoView>, max: nat)
        requires
            max >= items.len(),
        ensures
            forall|k: int|
                #![trigger items[k]]
                0 <= k < items.len() ==> match (items[k].full_name, items[k].html_url, items[k].pushed_at) {
                    (Some(n), Some(u), None) => n.len() > 0 && u.len() > 0 ==> exists|i: int| #![trigger crate::engines::entries::ranked_entries(Self::entries_of(items), max, "gitee"@, true)[i]] 0 <= i < crate::engines::entries::ranked_entries(Self::entries_of(items), max, "gitee"@, true).len()
                        && crate::engines::entries::ranked_entries(Self::entries_of(items), max, "gitee"@, true)[i].title == crate::models::clean_title_spec(n) && crate::engines::entries::ranked_entries(Self::entries_of(items), max, "gitee"@, true)[i].url == u && crate::engines::entries::ranked_entries(Self::entries_of(items), max, "gitee"@, true)[i].rank == k
                        && crate::engines::entries::ranked_entries(Self::entries_of(items), max, "gitee"@, true)[i].snippet == crate::engines::common::clip_spec(record_snippet(items[k]), 300),
                    _ => true,
                },
    {
        let es = Self::entries_of(items);
        crate::engines::entries::lemma_entries_to_results(es, max, "gitee"@, true);
        let rs = crate::engines::entries::ranked_entries(Self::entries_of(items), max, "gitee"@, true);
        assert forall|k: int| #![trigger items[k]] 0 <= k < items.len() implies match (items[k].full_name, items[k].html_url, items[k].pushed_at) {
                    (Some(n), Some(u), None) => n.len() > 0 && u.len() > 0 ==> exists|i: int| #![trigger rs[i]] 0 <= i < rs.len()
                        && rs[i].title == crate::models::clean_title_spec(n) && rs[i].url == u && rs[i].rank == k
                        && rs[i].snippet == crate::engines::common::clip_spec(record_snippet(items[k]), 300),
                    _ => true,
                } by {
            assert(es[k] == es[k]);
        }
    }

    /// The results of an API response, ranked by their index in the list,
    /// at most `max`, skipping a repository whose date cannot be cut.
    pub fn api_results(&self, items: &Vec<RepoRecord>, max: usize) -> (r: Vec<SearchResult>)
        ensures
            results_view(r@) == ranked_entries(
                Self::entries_of(repos_view(items@)),
                max as nat,
                "gitee"@,
                true,
            ),
    {
        let ghost rv = repos_view(items@);
        let mut es: Vec<Option<Entry>> = Vec::new();
        let mut i: usize = 0;
        while i < items.len()
            invariant
                i <= items@.len(),
                rv == repos_view(items@),
                es@.len() == i,
                entries_view(es@) == Self::entries_of(rv.take(i as int)),
            decreases items.len() - i,
        {
            let (e, bad) = Self::entry_of(&items[i]);
            let ghost prev = es@;
            es.push(if bad {
                None
            } else {
                e
            });
            assert forall|k: int| 0 <= k < i + 1 implies #[trigger] entries_view(es@)[k]
                == Self::entries_of(rv.take(i + 1))[k] by {
                if k < i {
                    assert(es@[k] == prev[k]);
                    assert(entries_view(prev)[k] == Self::entries_of(rv.take(i as int))[k]);
                }
            }
            assert(entries_view(es@) =~= Self::entries_of(rv.take(i + 1)));
            i += 1;
        }
        assert(rv.take(items@.len() as int) =~= rv);
        rank_entries(es, "gitee", max, true)
    }

    pub open spec fn fields() -> Seq<Seq<char>> {
        seq!["a.title, a[class*='title']"@, ".desc, .project-desc"@]
    }

    pub open spec fn layout() -> Layout {
        Layout { link: (0, 1), title: None, snippet: (1, 2) }
    }

    pub open spec fn rule() -> LinkRule<'static> {
        LinkRule::Prefix("https://gitee.com")
    }

    /// The results the search page holds.
    pub open spec fn page_results_spec(html: Seq<char>, max: nat) -> Seq<ResultView> {
        ranked(
            block_items(
                html_blocks(html, "li.project-item, li[class*='repository']"@, Self::fields()),
                Self::layout(),
                Self::rule(),
            ),
            max,
            "gitee"@,
        )
    }

    /// Parses the search page into at most `max` results.
    pub fn parse_html(&self, html: &str, max: usize) -> (r: Vec<SearchResult>)
        ensures
            results_view(r@) == Self::page_results_spec(html@, max as nat),
    {
        let fields = vec!["a.title, a[class*='title']", ".desc, .project-desc"];
        assert(strs_view(fields@) =~= Self::fields());
        let blocks = select_blocks(html, "li.project-item, li[class*='repository']", &fields);
        assemble(
            &blocks,
            Layout { link: (0, 1), title: None, snippet: (1, 2) },
            LinkRule::Prefix("https://gitee.com"),
            "gitee",
            max,
        )
    }

    /// Each result comes from one `li.project-item, li[class*='repository']` block, in rank order: its title and
    /// link are those of the block's first `a.title, a[class*='title']`, and its snippet is the
    /// clipped text of the first of `.desc, .project-desc` the block holds (empty
    /// without one), whatever the link's text.
    pub proof fn law_results_from_blocks(html: Seq<char>, max: nat)
        ensures
            ({
                let blocks = crate::engines::html::html_blocks(html, "li.project-item, li[class*='repository']"@, seq!["a.title, a[class*='title']"@, ".desc, .project-desc"@]);
                let rs = Self::page_results_spec(html, max);
                &&& rs.len() <= max
                &&& forall|i: int|
                    #![trigger rs[i]]
                    0 <= i < rs.len() ==> rs[i].rank == i && rs[i].source == "gitee"@ && exists|k: int|
                        #![trigger blocks[k]]
                        0 <= k < blocks.len() && (crate::engines::html::first_node(blocks[k], 0, 1) matches Some(a)
                            && rs[i].title == crate::models::clean_title_spec(crate::text::collapse_ws(a.0))
                            && rs[i].url == (if crate::text::starts_with(crate::engines::html::or_empty(a.1), "http"@) { crate::engines::html::or_empty(a.1) } else { "https://gitee.com"@ + crate::engines::html::or_empty(a.1) })
                            && rs[i].snippet == (match crate::engines::html::first_node(blocks[k], 1, 2) {
                                Some(n) => crate::engines::common::clip_spec(n.0, 300),
                                None => Seq::empty(),
                            }))
            }),
    {
        let blocks = crate::engines::html::html_blocks(html, "li.project-item, li[class*='repository']"@, seq!["a.title, a[class*='title']"@, ".desc, .project-desc"@]);
        assert(Self::fields() == seq!["a.title, a[class*='title']"@, ".desc, .project-desc"@]);
        crate::engines::html::lemma_ranked_from_blocks(blocks, Self::layout(), Self::rule(), max, "gitee"@);
    }

    /// No usable block is lost: when `max` is at least the number of
    /// `li.project-item, li[class*='repository']` blocks, every block whose first `a.title, a[class*='title']` has non-empty text
    /// and gives a non-empty link yields a result with that title, link and
    /// snippet.
    pub proof fn law_blocks_give_results(html: Seq<char>, max: nat, blocks: Seq<Seq<Option<crate::engines::html::NodeView>>>)
        requires
            blocks == crate::engines::html::html_blocks(html, "li.project-item, li[class*='repository']"@, seq!["a.title, a[class*='title']"@, ".desc, .project-desc"@]),
            max >= blocks.len(),
        ensures
            forall|k: int|
                #![trigger blocks[k]]
                0 <= k < blocks.len() ==> match crate::engines::html::first_node(blocks[k], 0, 1) {
                    Some(a) => crate::text::collapse_ws(a.0).len() > 0 && (if crate::text::starts_with(crate::engines::html::or_empty(a.1), "http"@) { crate::engines::html::or_empty(a.1) } else { "https://gitee.com"@ + crate::engines::html::or_empty(a.1) }).len() > 0
                    ==> exists|i: int|
                        #![trigger Self::page_results_spec(html, max)[i]]
                        0 <= i < Self::page_results_spec(html, max).len()
                            && Self::page_results_spec(html, max)[i].title == crate::models::clean_title_spec(crate::text::collapse_ws(a.0))
                            && Self::page_results_spec(html, max)[i].url == (if crate::text::starts_with(crate::engines::html::or_empty(a.1), "http"@) { crate::engines::html::or_empty(a.1) } else { "https://gitee.com"@ + crate::engines::html::or_empty(a.1) })
                            && Self::page_results_spec(html, max)[i].snippet == match crate::engines::html::first_node(blocks[k], 1, 2) {
                                Some(n) => crate::engines::common::clip_spec(n.0, 300),
                                None => Seq::empty(),
                            },
                    None => true,
                },
    {
        assert(Self::fields() == seq!["a.title, a[class*='title']"@, ".desc, .project-desc"@]);
        crate::engines::html::lemma_blocks_to_results(blocks, Self::layout(), Self::rule(), max, "gitee"@);
        let rs = Self::page_results_spec(html, max);
        assert(rs == crate::engines::html::ranked(crate::engines::html::block_items(blocks, Self::layout(), Self::rule()), max, "gitee"@));
        assert forall|k: int| #![trigger blocks[k]] 0 <= k < blocks.len() implies match crate::engines::html::first_node(blocks[k], 0, 1) {
            Some(a) => crate::text::collapse_ws(a.0).len() > 0 && (if crate::text::starts_with(crate::engines::html::or_empty(a.1), "http"@) { crate::engines::html::or_empty(a.1) } else { "https://gitee.com"@ + crate::engines::html::or_empty(a.1) }).len() > 0
                ==> exists|i: int|
                    #![trigger rs[i]]
                    0 <= i < rs.len() && rs[i].title == crate::models::clean_title_spec(crate::text::collapse_ws(a.0))
                        && rs[i].url == (if crate::text::starts_with(crate::engines::html::or_empty(a.1), "http"@) { crate::engines::html::or_empty(a.1) } else { "https://gitee.com"@ + crate::engines::html::or_empty(a.1) }) && rs[i].snippet == match crate::engines::html::first_node(blocks[k], 1, 2) {
                                Some(n) => crate::engines::common::clip_spec(n.0, 300),
                                None => Seq::empty(),
                            },
            None => true,
        } by {
            let b = blocks[k];
            match crate::engines::html::first_node(b, 0, 1) {
                Some(a) => {
                    if crate::text::collapse_ws(a.0).len() > 0 && (if crate::text::starts_with(crate::engines::html::or_empty(a.1), "http"@) { crate::engines::html::or_empty(a.1) } else { "https://gitee.com"@ + crate::engines::html::or_empty(a.1) }).len() > 0 {
                        assert(crate::engines::html::block_item(b, Self::layout(), Self::rule()) is Some);
                    }
                },
                None => {},
            }
        }
    }

    /// The page results, or this engine's error when there are none.
    pub fn finish(&self, out: Vec<SearchResult>) -> (r: Result<Vec<SearchResult>, EngineError>)
        ensures
            out@.len() > 0 ==> r == Ok::<Vec<SearchResult>, EngineError>(out),
            out@.len() == 0 ==> (r matches Err(EngineError::Parse(m)) && m@
                == "Gitee 无结果或页面结构变化"@),
    {
        if out.len() == 0 {
            return Err(EngineError::Parse(owned("Gitee 无结果或页面结构变化")));
        }
        Ok(out)
    }
}

} // verus!
