//! WeChat official accounts, through Sogou WeChat search and the JS render bridge. Result blocks: `ul.news-list li` -> `h3 a`, snippet `.txt-info`; the generic extractor is the fallback.
use vstd::prelude::*;

use crate::engines::common::{query_url, query_encoded, anchor_scan, generic_extract, html_anchors};
use crate::engines::html::{
    assemble, block_items, html_blocks, ranked, select_blocks, strs_view, Layout, LinkRule,
};
use crate::engines::{nonempty_or, EngineError};
use crate::models::{meta_view, results_view, Category, EngineMeta, ResultView, SearchResult};
use crate::text::{decimal, owned};

verus! {

pub struct Wechat;

impl Wechat {
    /// Engine metadata.
    pub fn meta(&self) -> (r: EngineMeta)
        ensures
            meta_view(r) == ("wechat"@, "微信公众号"@, Category::Chinese, true),
    {
        EngineMeta::new("wechat", "微信公众号", Category::Chinese, true)
    }

    pub open spec fn url_spec(query: Seq<char>, max: nat) -> Seq<char> {
        "https://weixin.sogou.com/weixin?type=2&query="@ + query_encoded(query) + ""@
    }

    /// The search request URL for the query.
    pub fn search_url(&self, query: &str, max: usize) -> (r: String)
        ensures
            r@ == Self::url_spec(query@, max as nat),
    {
        query_url("https://weixin.sogou.com/weixin?type=2&query=", query, "")
    }

    pub open spec fn fields() -> Seq<Seq<char>> {
        seq!["h3 a"@, ".txt-info"@]
    }

    pub open spec fn layout() -> Layout {
        Layout { link: (0, 1), title: None, snippet: (1, 2) }
    }

    pub open spec fn rule() -> LinkRule<'static> {
        LinkRule::Raw
    }

    /// The results a result page holds.
    pub open spec fn results_spec(html: Seq<char>, max: nat) -> Seq<ResultView> {
        ranked(
            block_items(html_blocks(html, "ul.news-list li"@, Self::fields()), Self::layout(), Self::rule()),
            max,
            "wechat"@,
        )
    }

    /// Parses a result page into at most `max` results.
    pub fn parse_html(&self, html: &str, max: usize) -> (r: Vec<SearchResult>)
        ensures
            results_view(r@) == Self::results_spec(html@, max as nat),
    {
        let fields = vec!["h3 a", ".txt-info"];
        assert(strs_view(fields@) =~= Self::fields());
        let blocks = select_blocks(html, "ul.news-list li", &fields);
        assemble(&blocks, Layout { link: (0, 1), title: None, snippet: (1, 2) }, LinkRule::Raw, "wechat", max)
    }

    /// Each result comes from one `ul.news-list li` block, in rank order: its title and
    /// link are those of the block's first `h3 a`, and its snippet is the
    /// clipped text of the first of `.txt-info` the block holds (empty
    /// without one), whatever the link's text.
    pub proof fn law_results_from_blocks(html: Seq<char>, max: nat)
        ensures
            ({
                let blocks = crate::engines::html::html_blocks(html, "ul.news-list li"@, seq!["h3 a"@, ".txt-info"@]);
                let rs = Self::results_spec(html, max);
                &&& rs.len() <= max
                &&& forall|i: int|
                    #![trigger rs[i]]
                    0 <= i < rs.len() ==> rs[i].rank == i && rs[i].source == "wechat"@ && exists|k: int|
                        #![trigger blocks[k]]
                        0 <= k < blocks.len() && (crate::engines::html::first_node(blocks[k], 0, 1) matches Some(a)
                            && rs[i].title == crate::models::clean_title_spec(crate::text::collapse_ws(a.0))
                            && rs[i].url == crate::engines::html::or_empty(a.1)
                            && rs[i].snippet == (match crate::engines::html::first_node(blocks[k], 1, 2) {
                                Some(n) => crate::engines::common::clip_spec(n.0, 300),
                                None => Seq::empty(),
                            }))
            }),
    {
        let blocks = crate::engines::html::html_blocks(html, "ul.news-list li"@, seq!["h3 a"@, ".txt-info"@]);
        assert(Self::fields() == seq!["h3 a"@, ".txt-info"@]);
        crate::engines::html::lemma_ranked_from_blocks(blocks, Self::layout(), Self::rule(), max, "wechat"@);
    }

    /// No usable block is lost: when `max` is at least the number of
    /// `ul.news-list li` blocks, every block whose first `h3 a` has non-empty text
    /// and gives a non-empty link yields a result with that title, link and
    /// snippet.
    pub proof fn law_blocks_give_results(html: Seq<char>, max: nat, blocks: Seq<Seq<Option<crate::engines::html::NodeView>>>)
        requires
            blocks == crate::engines::html::html_blocks(html, "ul.news-list li"@, seq!["h3 a"@, ".txt-info"@]),
            max >= blocks.len(),
        ensures
            forall|k: int|
                #![trigger blocks[k]]
                0 <= k < blocks.len() ==> match crate::engines::html::first_node(blocks[k], 0, 1) {
                    Some(a) => crate::text::collapse_ws(a.0).len() > 0 && crate::engines::html::or_empty(a.1).len() > 0
                    ==> exists|i: int|
                        #![trigger Self::results_spec(html, max)[i]]
                        0 <= i < Self::results_spec(html, max).len()
                            && Self::results_spec(html, max)[i].title == crate::models::clean_title_spec(crate::text::collapse_ws(a.0))
                            && Self::results_spec(html, max)[i].url == crate::engines::html::or_empty(a.1)
                            && Self::results_spec(html, max)[i].snippet == match crate::engines::html::first_node(blocks[k], 1, 2) {
                                Some(n) => crate::engines::common::clip_spec(n.0, 300),
                                None => Seq::empty(),
                            },
                    None => true,
                },
    {
        assert(Self::fields() == seq!["h3 a"@, ".txt-info"@]);
        crate::engines::html::lemma_blocks_to_results(blocks, Self::layout(), Self::rule(), max, "wechat"@);
        let rs = Self::results_spec(html, max);
        assert(rs == crate::engines::html::ranked(crate::engines::html::block_items(blocks, Self::layout(), Self::rule()), max, "wechat"@));
        assert forall|k: int| #![trigger blocks[k]] 0 <= k < blocks.len() implies match crate::engines::html::first_node(blocks[k], 0, 1) {
            Some(a) => crate::text::collapse_ws(a.0).len() > 0 && crate::engines::html::or_empty(a.1).len() > 0
                ==> exists|i: int|
                    #![trigger rs[i]]
                    0 <= i < rs.len() && rs[i].title == crate::models::clean_title_spec(crate::text::collapse_ws(a.0))
                        && rs[i].url == crate::engines::html::or_empty(a.1) && rs[i].snippet == match crate::engines::html::first_node(blocks[k], 1, 2) {
                                Some(n) => crate::engines::common::clip_spec(n.0, 300),
                                None => Seq::empty(),
                            },
            None => true,
        } by {
            let b = blocks[k];
            match crate::engines::html::first_node(b, 0, 1) {
                Some(a) => {
                    if crate::text::collapse_ws(a.0).len() > 0 && crate::engines::html::or_empty(a.1).len() > 0 {
                        assert(crate::engines::html::block_item(b, Self::layout(), Self::rule()) is Some);
                    }
                },
                None => {},
            }
        }
    }

    /// The results, or this engine's error when there are none.
    pub fn finish(&self, out: Vec<SearchResult>) -> (r: Result<Vec<SearchResult>, EngineError>)
        ensures
            out@.len() > 0 ==> r == Ok::<Vec<SearchResult>, EngineError>(out),
            out@.len() == 0 ==> (r matches Err(EngineError::Blocked(m)) && m@ == "微信公众号无结果（搜狗反爬较重，可能需要验证码）"@),
    {
        nonempty_or(out, EngineError::Blocked(owned("微信公众号无结果（搜狗反爬较重，可能需要验证码）")))
    }

    /// The results of a rendered page: the dedicated selectors first, the
    /// generic extractor when they find nothing.
    pub open spec fn page_spec(html: Seq<char>, max: nat) -> Seq<ResultView> {
        let own = Self::results_spec(html, max);
        if own.len() > 0 {
            own
        } else {
            ranked(anchor_scan(html_anchors(html, "a[href^='http']"@)).0, max, "wechat"@)
        }
    }

    /// Results of a rendered page, the generic extractor being the fallback;
    /// an error when neither finds anything.
    pub fn results_from_page(&self, html: &str, max: usize) -> (r: Result<Vec<SearchResult>, EngineError>)
        ensures
            Self::page_spec(html@, max as nat).len() > 0 ==> (r matches Ok(v) && results_view(v@) == Self::page_spec(html@, max as nat)),
            Self::page_spec(html@, max as nat).len() == 0 ==> (r matches Err(EngineError::Blocked(m)) && m@ == "微信公众号无结果（搜狗反爬较重，可能需要验证码）"@),
    {
        let mut out = self.parse_html(html, max);
        if out.len() == 0 {
            out = generic_extract(html, "wechat", max);
        }
        self.finish(out)
    }

    /// The error when the JS render bridge is not configured.
    pub fn missing_renderer(&self) -> (r: EngineError)
        ensures
            r matches EngineError::Blocked(m) && m@ == "微信公众号需要 JS 渲染桥（配置 js_render.enabled=true 且 sources 含 wechat）"@,
    {
        EngineError::Blocked(owned("微信公众号需要 JS 渲染桥（配置 js_render.enabled=true 且 sources 含 wechat）"))
    }
}

} // verus!
