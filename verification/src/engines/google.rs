//! Google web search. The light HTML page is tried first (with a consent
//! cookie); when it holds no result and the JS render bridge is configured,
//! the rendered page is parsed instead. Result blocks: `div.g` ->
//! `a[href^='http']` (link) and `h3` (title), snippet `.VwiC3b`.
use vstd::prelude::*;

use crate::engines::common::{query_encoded, query_url_n};
use crate::engines::html::{
    block_items, collect_items, html_blocks, items_view, rank_items, ranked, select_blocks,
    strs_view, Layout, LinkRule,
};
use crate::engines::{nonempty_or, EngineError};
use crate::models::{meta_view, results_view, Category, EngineMeta, ResultView, SearchResult};
use crate::text::{decimal, owned};

verus! {

/// Cookie sent with the light HTML request so that no consent page comes back.
pub const CONSENT_COOKIE: &'static str = "CONSENT=YES+; SOCS=CAISHAgBEhJnd3NfMjAyNDA4MDEtMF9SQzIaAmNuIAEaBgiA_LyaBg";

pub struct Google;

impl Google {
    /// Engine metadata.
    pub fn meta(&self) -> (r: EngineMeta)
        ensures
            meta_view(r) == ("google"@, "Google"@, Category::General, true),
    {
        EngineMeta::new("google", "Google", Category::General, true)
    }

    pub open spec fn url_spec(query: Seq<char>, max: nat) -> Seq<char> {
        "https://www.google.com/search?q="@ + query_encoded(query) + "&num="@ + decimal(
            if max < 100 {
                max
            } else {
                100
            },
        ) + "&hl=zh-CN&gl=us"@
    }

    /// The search request URL, asking for at most 100 results.
    pub fn search_url(&self, query: &str, max: usize) -> (r: String)
        ensures
            r@ == Self::url_spec(query@, max as nat),
    {
        let n: usize = if max < 100 {
            max
        } else {
            100
        };
        query_url_n("https://www.google.com/search?q=", query, "&num=", n as u64, "&hl=zh-CN&gl=us")
    }

    pub open spec fn fields() -> Seq<Seq<char>> {
        seq!["a[href^='http']"@, "h3"@, ".VwiC3b"@]
    }

    pub open spec fn layout() -> Layout {
        Layout { link: (0, 1), title: Some((1, 2)), snippet: (2, 3) }
    }

    /// The (title, url, snippet) items a result page holds.
    pub open spec fn items_spec(html: Seq<char>) -> Seq<(Seq<char>, Seq<char>, Seq<char>)> {
        block_items(html_blocks(html, "div.g"@, Self::fields()), Self::layout(), LinkRule::Raw)
    }

    /// Each item comes from one of the `div.g` blocks `blocks` of the page: item `i` has the link of the
    /// block's first `a[href^='http']`, the text of its first `h3` as title,
    /// and the clipped text of its first `.VwiC3b` as snippet (empty without
    /// one).
    pub proof fn law_items_from_blocks(html: Seq<char>, blocks: Seq<Seq<Option<crate::engines::html::NodeView>>>, i: int)
        requires
            blocks == crate::engines::html::html_blocks(html, "div.g"@, seq!["a[href^='http']"@, "h3"@, ".VwiC3b"@]),
            0 <= i < Self::items_spec(html).len(),
        ensures
            exists|k: int|
                #![trigger blocks[k]]
                0 <= k < blocks.len() && Self::item_from_block(Self::items_spec(html)[i], blocks[k]),
    {
        assert(Self::fields() == seq!["a[href^='http']"@, "h3"@, ".VwiC3b"@]);
        crate::engines::html::lemma_items_from_blocks(blocks, Self::layout(), LinkRule::Raw);
        let items = Self::items_spec(html);
        let k = choose|k: int|
            #![trigger blocks[k]]
            0 <= k < blocks.len() && crate::engines::html::block_item(blocks[k], Self::layout(), LinkRule::Raw) == Some(items[i]);
        assert(Self::item_from_block(items[i], blocks[k]));
    }

    /// `it` is (title, link, snippet) read from block `b` of fields
    /// (`a[href^='http']`, `h3`, `.VwiC3b`): the first field's link, the
    /// second's text, the third's clipped text (empty without one).
    pub open spec fn item_from_block(
        it: (Seq<char>, Seq<char>, Seq<char>),
        b: Seq<Option<crate::engines::html::NodeView>>,
    ) -> bool {
        match (crate::engines::html::first_node(b, 0, 1), crate::engines::html::first_node(b, 1, 2)) {
            (Some(a), Some(t)) => {
                &&& it.0 == crate::text::collapse_ws(t.0)
                &&& it.1 == crate::engines::html::or_empty(a.1)
                &&& it.2 == match crate::engines::html::first_node(b, 2, 3) {
                    Some(n) => crate::engines::common::clip_spec(n.0, 300),
                    None => Seq::empty(),
                }
            },
            _ => false,
        }
    }

    /// Parses a result page (light or rendered) into (title, url, snippet) items.
    pub fn parse_html(&self, html: &str) -> (r: Vec<(String, String, String)>)
        ensures
            items_view(r@) == Self::items_spec(html@),
    {
        let fields = vec!["a[href^='http']", "h3", ".VwiC3b"];
        assert(strs_view(fields@) =~= Self::fields());
        let blocks = select_blocks(html, "div.g", &fields);
        collect_items(&blocks, Layout { link: (0, 1), title: Some((1, 2)), snippet: (2, 3) }, LinkRule::Raw)
    }

    /// The results of the parsed items, or the error when there are none.
    pub fn finish(&self, parsed: &Vec<(String, String, String)>, max: usize) -> (r: Result<
        Vec<SearchResult>,
        EngineError,
    >)
        ensures
            parsed@.len() > 0 ==> (r matches Ok(v) && results_view(v@) == ranked(
                items_view(parsed@),
                max as nat,
                "google"@,
            )),
            parsed@.len() == 0 ==> (r matches Err(EngineError::Blocked(m)) && m@
                == "无结果（Google 反爬较强，建议启用 JS 渲染桥）"@),
    {
        if parsed.len() == 0 {
            return Err(EngineError::Blocked(owned("无结果（Google 反爬较强，建议启用 JS 渲染桥）")));
        }
        Ok(rank_items(parsed, "google", max))
    }
}

} // verus!
