//! Bing web search (HTML). Result blocks: `li.b_algo` -> `h2 a` (title / link), snippet `p`.
use vstd::prelude::*;

use crate::engines::common::{query_url_n, query_encoded};
use crate::engines::html::{block_item, first_node, 
    assemble, block_items, html_blocks, lemma_items_from_blocks, or_empty, ranked, select_blocks,
    strs_view, Layout, LinkRule,
};
use crate::engines::common::{clip_spec, joined_url};
use crate::models::clean_title_spec;
use crate::text::collapse_ws;
use crate::engines::{nonempty_or, EngineError};
use crate::models::{meta_view, results_view, Category, EngineMeta, ResultView, SearchResult};
use crate::text::{decimal, owned};

verus! {

pub struct Bing;

impl Bing {
    /// Engine metadata.
    pub fn meta(&self) -> (r: EngineMeta)
        ensures
            meta_view(r) == ("bing"@, "必应"@, Category::General, false),
    {
        EngineMeta::new("bing", "必应", Category::General, false)
    }

    pub open spec fn url_spec(query: Seq<char>, max: nat) -> Seq<char> {
        "https://www.bing.com/search?q="@ + query_encoded(query) + "&count="@ + decimal(if max < 50 { max } else { 50 }) + "&setlang=zh-hans&mkt=zh-CN&form=QBLH"@
    }

    /// The search request URL asking for at most 50 results.
    pub fn search_url(&self, query: &str, max: usize) -> (r: String)
        ensures
            r@ == Self::url_spec(query@, max as nat),
    {
        let n: usize = if max < 50 {
            max
        } else {
            50
        };
        query_url_n("https://www.bing.com/search?q=", query, "&count=", n as u64, "&setlang=zh-hans&mkt=zh-CN&form=QBLH")
    }

    pub open spec fn fields() -> Seq<Seq<char>> {
        seq!["h2 a"@, "p"@]
    }

    pub open spec fn layout() -> Layout {
        Layout { link: (0, 1), title: None, snippet: (1, 2) }
    }

    pub open spec fn rule() -> LinkRule<'static> {
        LinkRule::Join("https://www.bing.com/")
    }

    /// The results a result page holds.
    pub open spec fn results_spec(html: Seq<char>, max: nat) -> Seq<ResultView> {
        ranked(
            block_items(html_blocks(html, "li.b_algo"@, Self::fields()), Self::layout(), Self::rule()),
            max,
            "bing"@,
        )
    }

    /// Parses a result page into at most `max` results.
    pub fn parse_html(&self, html: &str, max: usize) -> (r: Vec<SearchResult>)
        ensures
            results_view(r@) == Self::results_spec(html@, max as nat),
    {
        let fields = vec!["h2 a", "p"];
        assert(strs_view(fields@) =~= Self::fields());
        let blocks = select_blocks(html, "li.b_algo", &fields);
        assemble(&blocks, Layout { link: (0, 1), title: None, snippet: (1, 2) }, LinkRule::Join("https://www.bing.com/"), "bing", max)
    }

    /// Each result comes from one `li.b_algo` block, in rank order: its
    /// title and link are those of the block's first `h2 a`, and its snippet
    /// is the clipped text of the block's first `p` (empty without one),
    /// whatever the link's text.
    pub proof fn law_results_from_blocks(html: Seq<char>, max: nat)
        ensures
            ({
                let blocks = html_blocks(html, "li.b_algo"@, seq!["h2 a"@, "p"@]);
                let rs = Self::results_spec(html, max);
                &&& rs.len() <= max
                &&& forall|i: int|
                    #![trigger rs[i]]
                    0 <= i < rs.len() ==> rs[i].rank == i && rs[i].source == "bing"@ && exists|k: int|
                        #![trigger blocks[k]]
                        0 <= k < blocks.len() && blocks[k].len() > 0 && (blocks[k][0] matches Some(a)
                            && rs[i].title == clean_title_spec(collapse_ws(a.0)) && rs[i].url
                            == or_empty(joined_url("https://www.bing.com/"@, or_empty(a.1)))
                            && rs[i].snippet == (if blocks[k].len() > 1 {
                            match blocks[k][1] {
                                Some(n) => clip_spec(n.0, 300),
                                None => Seq::empty(),
                            }
                        } else {
                            Seq::empty()
                        }))
            }),
    {
        let blocks = html_blocks(html, "li.b_algo"@, seq!["h2 a"@, "p"@]);
        assert(Self::fields() == seq!["h2 a"@, "p"@]);
        let items = block_items(blocks, Self::layout(), Self::rule());
        lemma_items_from_blocks(blocks, Self::layout(), Self::rule());
        let rs = Self::results_spec(html, max);
        assert forall|i: int|
            #![trigger rs[i]]
            0 <= i < rs.len() implies rs[i].rank == i && rs[i].source == "bing"@ && exists|k: int|
                #![trigger blocks[k]]
                0 <= k < blocks.len() && blocks[k].len() > 0 && (blocks[k][0] matches Some(a)
                    && rs[i].title == clean_title_spec(collapse_ws(a.0)) && rs[i].url
                    == or_empty(joined_url("https://www.bing.com/"@, or_empty(a.1)))
                    && rs[i].snippet == (if blocks[k].len() > 1 {
                            match blocks[k][1] {
                                Some(n) => clip_spec(n.0, 300),
                                None => Seq::empty(),
                            }
                        } else {
                            Seq::empty()
                        })) by {
            assert(0 <= i < items.len());
            let k = choose|k: int|
                #![trigger blocks[k]]
                0 <= k < blocks.len() && block_item(blocks[k], Self::layout(), Self::rule()) == Some(items[i]);
            let b = blocks[k];
            reveal_with_fuel(first_node, 2);
            assert(first_node(b, 0, 1) is Some);
            assert(b.len() > 0 && b[0] is Some);
            if b.len() > 1 && b[1] is Some {
                assert(first_node(b, 1, 2) == b[1]);
            } else {
                assert(first_node(b, 1, 2) is None);
            }
        }
    }

    /// No usable block is lost: when `max` is at least the number of
    /// `li.b_algo` blocks, every block whose first `h2 a` has non-empty text
    /// and gives a non-empty link yields a result with that title, link and
    /// snippet.
    pub proof fn law_blocks_give_results(html: Seq<char>, max: nat, blocks: Seq<Seq<Option<crate::engines::html::NodeView>>>)
        requires
            blocks == crate::engines::html::html_blocks(html, "li.b_algo"@, seq!["h2 a"@, "p"@]),
            max >= blocks.len(),
        ensures
            forall|k: int|
                #![trigger blocks[k]]
                0 <= k < blocks.len() ==> match crate::engines::html::first_node(blocks[k], 0, 1) {
                    Some(a) => crate::text::collapse_ws(a.0).len() > 0 && crate::engines::html::or_empty(crate::engines::common::joined_url("https://www.bing.com/"@, crate::engines::html::or_empty(a.1))).len() > 0
                    ==> exists|i: int|
                        #![trigger Self::results_spec(html, max)[i]]
                        0 <= i < Self::results_spec(html, max).len()
                            && Self::results_spec(html, max)[i].title == crate::models::clean_title_spec(crate::text::collapse_ws(a.0))
                            && Self::results_spec(html, max)[i].url == crate::engines::html::or_empty(crate::engines::common::joined_url("https://www.bing.com/"@, crate::engines::html::or_empty(a.1)))
                            && Self::results_spec(html, max)[i].snippet == match crate::engines::html::first_node(blocks[k], 1, 2) {
                                Some(n) => crate::engines::common::clip_spec(n.0, 300),
                                None => Seq::empty(),
                            },
                    None => true,
                },
    {
        assert(Self::fields() == seq!["h2 a"@, "p"@]);
        crate::engines::html::lemma_blocks_to_results(blocks, Self::layout(), Self::rule(), max, "bing"@);
        let rs = Self::results_spec(html, max);
        assert(rs == crate::engines::html::ranked(crate::engines::html::block_items(blocks, Self::layout(), Self::rule()), max, "bing"@));
        assert forall|k: int| #![trigger blocks[k]] 0 <= k < blocks.len() implies match crate::engines::html::first_node(blocks[k], 0, 1) {
            Some(a) => crate::text::collapse_ws(a.0).len() > 0 && crate::engines::html::or_empty(crate::engines::common::joined_url("https://www.bing.com/"@, crate::engines::html::or_empty(a.1))).len() > 0
                ==> exists|i: int|
                    #![trigger rs[i]]
                    0 <= i < rs.len() && rs[i].title == crate::models::clean_title_spec(crate::text::collapse_ws(a.0))
                        && rs[i].url == crate::engines::html::or_empty(crate::engines::common::joined_url("https://www.bing.com/"@, crate::engines::html::or_empty(a.1))) && rs[i].snippet == match crate::engines::html::first_node(blocks[k], 1, 2) {
                                Some(n) => crate::engines::common::clip_spec(n.0, 300),
                                None => Seq::empty(),
                            },
            None => true,
        } by {
            let b = blocks[k];
            match crate::engines::html::first_node(b, 0, 1) {
                Some(a) => {
                    if crate::text::collapse_ws(a.0).len() > 0 && crate::engines::html::or_empty(crate::engines::common::joined_url("https://www.bing.com/"@, crate::engines::html::or_empty(a.1))).len() > 0 {
                        assert(crate::engines::html::block_item(b, Self::layout(), Self::rule()) is Some);
                    }
                },
                None => {},
            }
        }
    }

    /// The results, or this engine's error when there are none.
    pub fn finish(&self, out: Vec<SearchResult>) -> (r: Result<Vec<SearchResult>, EngineError>)
        ensures
            out@.len() > 0 ==> r == Ok::<Vec<SearchResult>, EngineError>(out),
            out@.len() == 0 ==> (r matches Err(EngineError::Blocked(m)) && m@ == "无结果或触发反爬"@),
    {
        nonempty_or(out, EngineError::Blocked(owned("无结果或触发反爬")))
    }
}

} // verus!
