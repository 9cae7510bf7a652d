//! Sogou web search (HTML). Result blocks: `div.vrwrap` -> `h3 a`, snippet `.text-layout` / `.str_info`. Sogou may answer with a JS challenge page; that source then fails alone.
use vstd::prelude::*;

use crate::engines::common::{query_url, query_encoded};
use crate::engines::html::{
    assemble, block_items, html_blocks, ranked, select_blocks, strs_view, Layout, LinkRule,
};
use crate::engines::{nonempty_or, EngineError};
use crate::models::{meta_view, results_view, Category, EngineMeta, ResultView, SearchResult};
use crate::text::{decimal, owned};

verus! {

pub struct Sogou;

impl Sogou {
    /// Engine metadata.
    pub fn meta(&self) -> (r: EngineMeta)
        ensures
            meta_view(r) == ("sogou"@, "搜狗"@, Category::General, false),
    {
        EngineMeta::new("sogou", "搜狗", Category::General, false)
    }

    pub open spec fn url_spec(query: Seq<char>, max: nat) -> Seq<char> {
        "https://www.sogou.com/web?query="@ + query_encoded(query) + "&ie=utf8"@
    }

    /// The search request URL for the query.
    pub fn search_url(&self, query: &str, max: usize) -> (r: String)
        ensures
            r@ == Self::url_spec(query@, max as nat),
    {
        query_url("https://www.sogou.com/web?query=", query, "&ie=utf8")
    }

    pub open spec fn fields() -> Seq<Seq<char>> {
        seq!["h3 a"@, ".text-layout"@, ".str_info"@, ".star-wiki"@]
    }

    pub open spec fn layout() -> Layout {
        Layout { link: (0, 1), title: None, snippet: (1, 4) }
    }

    pub open spec fn rule() -> LinkRule<'static> {
        LinkRule::Join("https://www.sogou.com/")
    }

    /// The results a result page holds.
    pub open spec fn results_spec(html: Seq<char>, max: nat) -> Seq<ResultView> {
        ranked(
            block_items(html_blocks(html, "div.vrwrap"@, Self::fields()), Self::layout(), Self::rule()),
            max,
            "sogou"@,
        )
    }

    /// Parses a result page into at most `max` results.
    pub fn parse_html(&self, html: &str, max: usize) -> (r: Vec<SearchResult>)
        ensures
            results_view(r@) == Self::results_spec(html@, max as nat),
    {
        let fields = vec!["h3 a", ".text-layout", ".str_info", ".star-wiki"];
        assert(strs_view(fields@) =~= Self::fields());
        let blocks = select_blocks(html, "div.vrwrap", &fields);
        assemble(&blocks, Layout { link: (0, 1), title: None, snippet: (1, 4) }, LinkRule::Join("https://www.sogou.com/"), "sogou", max)
    }

    /// Each result comes from one `div.vrwrap` block, in rank order: its title and
    /// link are those of the block's first `h3 a`, and its snippet is the
    /// clipped text of the first of `.text-layout`, `.str_info`, `.star-wiki` the block holds (empty
    /// without one), whatever the link's text.
    pub proof fn law_results_from_blocks(html: Seq<char>, max: nat)
        ensures
            ({
                let blocks = crate::engines::html::html_blocks(html, "div.vrwrap"@, seq!["h3 a"@, ".text-layout"@, ".str_info"@, ".star-wiki"@]);
                let rs = Self::results_spec(html, max);
                &&& rs.len() <= max
                &&& forall|i: int|
                    #![trigger rs[i]]
                    0 <= i < rs.len() ==> rs[i].rank == i && rs[i].source == "sogou"@ && exists|k: int|
                        #![trigger blocks[k]]
                        0 <= k < blocks.len() && (crate::engines::html::first_node(blocks[k], 0, 1) matches Some(a)
                            && rs[i].title == crate::models::clean_title_spec(crate::text::collapse_ws(a.0))
                            && rs[i].url == crate::engines::html::or_empty(crate::engines::common::joined_url("https://www.sogou.com/"@, crate::engines::html::or_empty(a.1)))
                            && rs[i].snippet == (match crate::engines::html::first_node(blocks[k], 1, 4) {
                                Some(n) => crate::engines::common::clip_spec(n.0, 300),
                                None => Seq::empty(),
                            }))
            }),
    {
        let blocks = crate::engines::html::html_blocks(html, "div.vrwrap"@, seq!["h3 a"@, ".text-layout"@, ".str_info"@, ".star-wiki"@]);
        assert(Self::fields() == seq!["h3 a"@, ".text-layout"@, ".str_info"@, ".star-wiki"@]);
        crate::engines::html::lemma_ranked_from_blocks(blocks, Self::layout(), Self::rule(), max, "sogou"@);
    }

    /// No usable block is lost: when `max` is at least the number of
    /// `div.vrwrap` blocks, every block whose first `h3 a` has non-empty text
    /// and gives a non-empty link yields a result with that title, link and
    /// snippet.
    pub proof fn law_blocks_give_results(html: Seq<char>, max: nat, blocks: Seq<Seq<Option<crate::engines::html::NodeView>>>)
        requires
            blocks == crate::engines::html::html_blocks(html, "div.vrwrap"@, seq!["h3 a"@, ".text-layout"@, ".str_info"@, ".star-wiki"@]),
            max >= blocks.len(),
        ensures
            forall|k: int|
                #![trigger blocks[k]]
                0 <= k < blocks.len() ==> match crate::engines::html::first_node(blocks[k], 0, 1) {
                    Some(a) => crate::text::collapse_ws(a.0).len() > 0 && crate::engines::html::or_empty(crate::engines::common::joined_url("https://www.sogou.com/"@, crate::engines::html::or_empty(a.1))).len() > 0
                    ==> exists|i: int|
                        #![trigger Self::results_spec(html, max)[i]]
                        0 <= i < Self::results_spec(html, max).len()
                            && Self::results_spec(html, max)[i].title == crate::models::clean_title_spec(crate::text::collapse_ws(a.0))
                            && Self::results_spec(html, max)[i].url == crate::engines::html::or_empty(crate::engines::common::joined_url("https://www.sogou.com/"@, crate::engines::html::or_empty(a.1)))
                            && Self::results_spec(html, max)[i].snippet == match crate::engines::html::first_node(blocks[k], 1, 4) {
                                Some(n) => crate::engines::common::clip_spec(n.0, 300),
                                None => Seq::empty(),
                            },
                    None => true,
                },
    {
        assert(Self::fields() == seq!["h3 a"@, ".text-layout"@, ".str_info"@, ".star-wiki"@]);
        crate::engines::html::lemma_blocks_to_results(blocks, Self::layout(), Self::rule(), max, "sogou"@);
        let rs = Self::results_spec(html, max);
        assert(rs == crate::engines::html::ranked(crate::engines::html::block_items(blocks, Self::layout(), Self::rule()), max, "sogou"@));
        assert forall|k: int| #![trigger blocks[k]] 0 <= k < blocks.len() implies match crate::engines::html::first_node(blocks[k], 0, 1) {
            Some(a) => crate::text::collapse_ws(a.0).len() > 0 && crate::engines::html::or_empty(crate::engines::common::joined_url("https://www.sogou.com/"@, crate::engines::html::or_empty(a.1))).len() > 0
                ==> exists|i: int|
                    #![trigger rs[i]]
                    0 <= i < rs.len() && rs[i].title == crate::models::clean_title_spec(crate::text::collapse_ws(a.0))
                        && rs[i].url == crate::engines::html::or_empty(crate::engines::common::joined_url("https://www.sogou.com/"@, crate::engines::html::or_empty(a.1))) && rs[i].snippet == match crate::engines::html::first_node(blocks[k], 1, 4) {
                                Some(n) => crate::engines::common::clip_spec(n.0, 300),
                                None => Seq::empty(),
                            },
            None => true,
        } by {
            let b = blocks[k];
            match crate::engines::html::first_node(b, 0, 1) {
                Some(a) => {
                    if crate::text::collapse_ws(a.0).len() > 0 && crate::engines::html::or_empty(crate::engines::common::joined_url("https://www.sogou.com/"@, crate::engines::html::or_empty(a.1))).len() > 0 {
                        assert(crate::engines::html::block_item(b, Self::layout(), Self::rule()) is Some);
                    }
                },
                None => {},
            }
        }
    }

    /// The results, or this engine's error when there are none.
    pub fn finish(&self, out: Vec<SearchResult>) -> (r: Result<Vec<SearchResult>, EngineError>)
        ensures
            out@.len() > 0 ==> r == Ok::<Vec<SearchResult>, EngineError>(out),
            out@.len() == 0 ==> (r matches Err(EngineError::Blocked(m)) && m@ == "无结果或触发反爬"@),
    {
        nonempty_or(out, EngineError::Blocked(owned("无结果或触发反爬")))
    }
}

} // verus!
