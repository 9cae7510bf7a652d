//! Startpage (HTML). Result blocks: `section.w-gl__result`, or on older layouts `section.result` or `div.w-gl__result` -> `h2.w-gl__result-title a`, snippet `.w-gl__description`. A captcha page yields no results (that source fails alone).
use vstd::prelude::*;

use crate::engines::common::{query_url, query_encoded};
use crate::engines::html::{
    assemble, block_items, blocks_view, html_blocks, ranked, select_blocks, strs_view, Layout,
    LinkRule, NodeView,
};
use crate::engines::{nonempty_or, EngineError};
use crate::models::{meta_view, results_view, Category, EngineMeta, ResultView, SearchResult};
use crate::text::{decimal, owned};

verus! {

/// Referer sent with the search request.
pub const REFERER: &'static str = "https://www.startpage.com/";

pub struct Startpage;

impl Startpage {
    /// Engine metadata.
    pub fn meta(&self) -> (r: EngineMeta)
        ensures
            meta_view(r) == ("startpage"@, "Startpage"@, Category::General, false),
    {
        EngineMeta::new("startpage", "Startpage", Category::General, false)
    }

    pub open spec fn url_spec(query: Seq<char>, max: nat) -> Seq<char> {
        "https://www.startpage.com/sp/search?query="@ + query_encoded(query) + "&language=chinese_simplified&cat=web"@
    }

    /// The search request URL for the query.
    pub fn search_url(&self, query: &str, max: usize) -> (r: String)
        ensures
            r@ == Self::url_spec(query@, max as nat),
    {
        query_url("https://www.startpage.com/sp/search?query=", query, "&language=chinese_simplified&cat=web")
    }

    pub open spec fn fields() -> Seq<Seq<char>> {
        seq!["h2.w-gl__result-title a"@, "h2 a"@, "a.w-gl__result-title-link"@, ".w-gl__description"@, ".description"@]
    }

    pub open spec fn layout() -> Layout {
        Layout { link: (0, 3), title: None, snippet: (3, 5) }
    }

    pub open spec fn rule() -> LinkRule<'static> {
        LinkRule::Prefix("https://www.startpage.com")
    }

    /// The result blocks of a page: those of the first container selector
    /// that matches any (current layout first, then the older ones).
    pub open spec fn blocks_spec(html: Seq<char>) -> Seq<Seq<Option<NodeView>>> {
        let a = html_blocks(html, "section.w-gl__result"@, Self::fields());
        let b = html_blocks(html, "section.result"@, Self::fields());
        if a.len() > 0 {
            a
        } else if b.len() > 0 {
            b
        } else {
            html_blocks(html, "div.w-gl__result"@, Self::fields())
        }
    }

    /// The results a result page holds.
    pub open spec fn results_spec(html: Seq<char>, max: nat) -> Seq<ResultView> {
        ranked(block_items(Self::blocks_spec(html), Self::layout(), Self::rule()), max, "startpage"@)
    }

    /// Parses a result page into at most `max` results.
    pub fn parse_html(&self, html: &str, max: usize) -> (r: Vec<SearchResult>)
        ensures
            results_view(r@) == Self::results_spec(html@, max as nat),
    {
        let fields = vec!["h2.w-gl__result-title a", "h2 a", "a.w-gl__result-title-link", ".w-gl__description", ".description"];
        assert(strs_view(fields@) =~= Self::fields());
        let mut blocks = select_blocks(html, "section.w-gl__result", &fields);
        if blocks.len() == 0 {
            blocks = select_blocks(html, "section.result", &fields);
            if blocks.len() == 0 {
                blocks = select_blocks(html, "div.w-gl__result", &fields);
            }
        }
        assert(blocks_view(blocks@) == Self::blocks_spec(html@));
        assemble(&blocks, Layout { link: (0, 3), title: None, snippet: (3, 5) }, LinkRule::Prefix("https://www.startpage.com"), "startpage", max)
    }

    /// Each result comes from one block of the current layout
    /// (`section.w-gl__result`) when the page has any, else of the older
    /// `section.result` layout when it has any, else of `div.w-gl__result`;
    /// results are ranked in order, at most `max`.
    pub proof fn law_results_from_layouts(
        html: Seq<char>,
        max: nat,
        current: Seq<Seq<Option<NodeView>>>,
        older: Seq<Seq<Option<NodeView>>>,
        oldest: Seq<Seq<Option<NodeView>>>,
    )
        requires
            current == html_blocks(html, "section.w-gl__result"@, seq!["h2.w-gl__result-title a"@, "h2 a"@, "a.w-gl__result-title-link"@, ".w-gl__description"@, ".description"@]),
            older == html_blocks(html, "section.result"@, seq!["h2.w-gl__result-title a"@, "h2 a"@, "a.w-gl__result-title-link"@, ".w-gl__description"@, ".description"@]),
            oldest == html_blocks(html, "div.w-gl__result"@, seq!["h2.w-gl__result-title a"@, "h2 a"@, "a.w-gl__result-title-link"@, ".w-gl__description"@, ".description"@]),
        ensures
            Self::results_spec(html, max).len() <= max,
        current.len() > 0 ==> forall|i: int|
            #![trigger Self::results_spec(html, max)[i]]
            0 <= i < Self::results_spec(html, max).len() ==> exists|k: int|
                #![trigger current[k]]
                0 <= k < current.len() && Self::result_from_block(Self::results_spec(html, max)[i], i, current[k]),
        current.len() == 0 && older.len() > 0 ==> forall|i: int|
            #![trigger Self::results_spec(html, max)[i]]
            0 <= i < Self::results_spec(html, max).len() ==> exists|k: int|
                #![trigger older[k]]
                0 <= k < older.len() && Self::result_from_block(Self::results_spec(html, max)[i], i, older[k]),
        current.len() == 0 && older.len() == 0 ==> forall|i: int|
            #![trigger Self::results_spec(html, max)[i]]
            0 <= i < Self::results_spec(html, max).len() ==> exists|k: int|
                #![trigger oldest[k]]
                0 <= k < oldest.len() && Self::result_from_block(Self::results_spec(html, max)[i], i, oldest[k]),
    {
        assert(Self::fields() == seq!["h2.w-gl__result-title a"@, "h2 a"@, "a.w-gl__result-title-link"@, ".w-gl__description"@, ".description"@]);
        let blocks = Self::blocks_spec(html);
        crate::engines::html::lemma_ranked_from_blocks(blocks, Self::layout(), Self::rule(), max, "startpage"@);
        let rs = Self::results_spec(html, max);
        assert forall|i: int| #![trigger rs[i]] 0 <= i < rs.len() implies exists|k: int|
            #![trigger blocks[k]]
            0 <= k < blocks.len() && Self::result_from_block(rs[i], i, blocks[k]) by {
            let k = choose|k: int|
                #![trigger blocks[k]]
                0 <= k < blocks.len() && (crate::engines::html::block_item(blocks[k], Self::layout(), Self::rule()) matches Some(it)
                    && rs[i] == crate::models::new_result(it.0, it.1, it.2, "startpage"@, i as nat));
            assert(Self::result_from_block(rs[i], i, blocks[k]));
        }
    }

    /// Result `r` at rank `i` read from block `b` of fields (three link
    /// selectors, two snippet selectors): title and link of the first link
    /// present, an http link kept and another put after the site's address,
    /// the clipped text of the first snippet present (empty without one).
    pub open spec fn result_from_block(r: ResultView, i: int, b: Seq<Option<NodeView>>) -> bool {
        &&& r.rank == i
        &&& r.source == "startpage"@
        &&& crate::engines::html::first_node(b, 0, 3) matches Some(a)
        &&& r.title == crate::models::clean_title_spec(crate::text::collapse_ws(a.0))
        &&& r.url == (if crate::text::starts_with(crate::engines::html::or_empty(a.1), "http"@) {
            crate::engines::html::or_empty(a.1)
        } else {
            "https://www.startpage.com"@ + crate::engines::html::or_empty(a.1)
        })
        &&& r.snippet == match crate::engines::html::first_node(b, 3, 5) {
            Some(n) => crate::engines::common::clip_spec(n.0, 300),
            None => Seq::empty(),
        }
    }

    /// The results, or this engine's error when there are none.
    pub fn finish(&self, out: Vec<SearchResult>) -> (r: Result<Vec<SearchResult>, EngineError>)
        ensures
            out@.len() > 0 ==> r == Ok::<Vec<SearchResult>, EngineError>(out),
            out@.len() == 0 ==> (r matches Err(EngineError::Blocked(m)) && m@ == "无结果或触发反爬（Startpage 有验证码防护）"@),
    {
        nonempty_or(out, EngineError::Blocked(owned("无结果或触发反爬（Startpage 有验证码防护）")))
    }
}

} // verus!
