//! Google News (RSS search feed, with region and language parameters). Each
//! `item` gives the title, the link, an HTML description and the `pubDate`
//! (such as "Fri, 21 Aug 2026 10:00:00 GMT", of which the date part is kept).
use vstd::prelude::*;

use crate::engines::common::{clean_text, clip, clip_spec, query_encoded, query_url, strip_html, strip_html_spec};
use crate::engines::entries::{
    entries_view, opt_entry_view, rank_entries, ranked_entries, Entry, EntryView,
};
use crate::engines::html::{
    block_view, blocks_view, first_field, first_node, html_blocks, select_blocks, strs_view, Node,
    NodeView,
};
use crate::engines::EngineError;
use crate::models::{meta_view, results_view, Category, EngineMeta, ResultView, SearchResult};
use crate::text::{collapse_ws, owned, slice_if_long, slice_if_long_str, cut_fails};

verus! {

pub struct GoogleNews;

impl GoogleNews {
    /// Engine metadata.
    pub fn meta(&self) -> (r: EngineMeta)
        ensures
            meta_view(r) == ("googlenews"@, "Google 新闻"@, Category::Academic, false),
    {
        EngineMeta::new("googlenews", "Google 新闻", Category::Academic, false)
    }

    pub open spec fn url_spec(query: Seq<char>) -> Seq<char> {
        "https://news.google.com/rss/search?q="@ + query_encoded(query) + "&hl=zh-CN&gl=CN&ceid=CN:zh-Hans"@
    }

    /// The feed request URL.
    pub fn search_url(&self, query: &str) -> (r: String)
        ensures
            r@ == Self::url_spec(query@),
    {
        query_url("https://news.google.com/rss/search?q=", query, "&hl=zh-CN&gl=CN&ceid=CN:zh-Hans")
    }

    pub open spec fn fields() -> Seq<Seq<char>> {
        seq!["title"@, "link"@, "description"@, "pubDate"@]
    }

    /// The text of field `k`, whitespace collapsed (empty when absent).
    pub open spec fn text_of(b: Seq<Option<NodeView>>, k: int) -> Seq<char> {
        match first_node(b, k, k + 1) {
            Some(n) => collapse_ws(n.0),
            None => Seq::empty(),
        }
    }

    /// The entry a feed `entry` makes.
    pub open spec fn entry_spec(b: Seq<Option<NodeView>>) -> Option<EntryView> {
        let title = Self::text_of(b, 0);
        let url = Self::text_of(b, 1);
        if title.len() == 0 || url.len() == 0 {
            None
        } else {
            let snippet = match first_node(b, 2, 3) {
                Some(s) => clip_spec(strip_html_spec(collapse_ws(s.0)), 300),
                None => Seq::empty(),
            };
            let published = match first_node(b, 3, 4) {
                Some(p) => slice_if_long(collapse_ws(p.0), 16, 5, 16),
                None => None,
            };
            Some((title, url, snippet, published))
        }
    }

    /// The date of this `item` cannot be cut at its fifth and sixteenth
    /// bytes; such an item is skipped.
    pub open spec fn bad_spec(b: Seq<Option<NodeView>>) -> bool {
        match first_node(b, 3, 4) {
            Some(p) => cut_fails(collapse_ws(p.0), 16, 5, 16),
            None => false,
        }
    }

    /// The entry that is kept: none when its date cannot be cut where the
    /// result's date is taken.
    pub open spec fn kept_spec(b: Seq<Option<NodeView>>) -> Option<EntryView> {
        if Self::bad_spec(b) {
            None
        } else {
            Self::entry_spec(b)
        }
    }

    pub open spec fn entries_of(blocks: Seq<Seq<Option<NodeView>>>) -> Seq<Option<EntryView>> {
        blocks.map_values(|b: Seq<Option<NodeView>>| Self::kept_spec(b))
    }

    pub open spec fn blocks_spec(xml: Seq<char>) -> Seq<Seq<Option<NodeView>>> {
        html_blocks(xml, "item"@, Self::fields())
    }

    fn text_field(b: &Vec<Option<Node>>, k: usize) -> (r: String)
        requires
            k < usize::MAX,
        ensures
            r@ == Self::text_of(block_view(b@), k as int),
    {
        proof {
            reveal_strlit("");
            assert(""@ =~= Seq::<char>::empty());
        }
        match first_field(b, k, k + 1) {
            Some(n) => clean_text(n.text.as_str()),
            None => owned(""),
        }
    }

    fn entry_of(b: &Vec<Option<Node>>) -> (r: (Option<Entry>, bool))
        ensures
            opt_entry_view(r.0) == Self::entry_spec(block_view(b@)),
            r.1 == Self::bad_spec(block_view(b@)),
    {
        proof {
            reveal_strlit("");
            assert(""@ =~= Seq::<char>::empty());
        }
        let (published, bad) = match first_field(b, 3, 4) {
            Some(p) => slice_if_long_str(clean_text(p.text.as_str()).as_str(), 16, 5, 16),
            None => (None, false),
        };
        let title = Self::text_field(b, 0);
        let url = Self::text_field(b, 1);
        if title.as_str().is_empty() || url.as_str().is_empty() {
            return (None, bad);
        }
        let snippet = match first_field(b, 2, 3) {
            Some(s) => clip(strip_html(clean_text(s.text.as_str()).as_str()).as_str(), 300),
            None => owned(""),
        };
        (Some(Entry { title, url, snippet, published }), bad)
    }

    /// Each result is made from one `item` of the feed, ranked by its
    /// position among the results: the item's `title` text as title, its
    /// `link` text as link, and the plain text of its `description` as
    /// snippet (empty without one).
    pub proof fn law_results_from_feed(xml: Seq<char>, max: nat, blocks: Seq<Seq<Option<crate::engines::html::NodeView>>>)
        requires
            blocks == crate::engines::html::html_blocks(xml, "item"@, seq!["title"@, "link"@, "description"@, "pubDate"@]),
        ensures
            crate::engines::entries::ranked_entries(Self::entries_of(Self::blocks_spec(xml)), max, "googlenews"@, false).len() <= max,
            forall|i: int|
                #![trigger crate::engines::entries::ranked_entries(Self::entries_of(Self::blocks_spec(xml)), max, "googlenews"@, false)[i]]
                0 <= i < crate::engines::entries::ranked_entries(Self::entries_of(Self::blocks_spec(xml)), max, "googlenews"@, false).len() ==> {
                    let rs = crate::engines::entries::ranked_entries(Self::entries_of(Self::blocks_spec(xml)), max, "googlenews"@, false);
                    &&& rs[i].source == "googlenews"@
                    &&& rs[i].rank == i
                    &&& exists|k: int| #![trigger blocks[k]] 0 <= k < blocks.len() && (match (crate::engines::html::first_node(blocks[k], 0, 1), crate::engines::html::first_node(blocks[k], 1, 2)) {
                    (Some(t), Some(u)) => rs[i].title == crate::models::clean_title_spec(crate::text::collapse_ws(t.0)) && rs[i].url == crate::text::collapse_ws(u.0)
                        && rs[i].snippet == match crate::engines::html::first_node(blocks[k], 2, 3) {
                            Some(s) => crate::engines::common::clip_spec(crate::engines::common::strip_html_spec(crate::text::collapse_ws(s.0)), 300),
                            None => Seq::empty(),
                        },
                    _ => false,
                })
                },
    {
        assert(Self::fields() == seq!["title"@, "link"@, "description"@, "pubDate"@]);
        let es = Self::entries_of(blocks);
        assert(es == Self::entries_of(Self::blocks_spec(xml)));
        crate::engines::entries::lemma_ranked_entries_from(es, max, "googlenews"@, false);
        let rs = crate::engines::entries::ranked_entries(Self::entries_of(Self::blocks_spec(xml)), max, "googlenews"@, false);
        assert forall|i: int| #![trigger rs[i]] 0 <= i < rs.len() implies rs[i].source == "googlenews"@
            && rs[i].rank == i && exists|k: int| #![trigger blocks[k]] 0 <= k < blocks.len() && (match (crate::engines::html::first_node(blocks[k], 0, 1), crate::engines::html::first_node(blocks[k], 1, 2)) {
                    (Some(t), Some(u)) => rs[i].title == crate::models::clean_title_spec(crate::text::collapse_ws(t.0)) && rs[i].url == crate::text::collapse_ws(u.0)
                        && rs[i].snippet == match crate::engines::html::first_node(blocks[k], 2, 3) {
                            Some(s) => crate::engines::common::clip_spec(crate::engines::common::strip_html_spec(crate::text::collapse_ws(s.0)), 300),
                            None => Seq::empty(),
                        },
                    _ => false,
                }) by {
            let k = choose|k: int|
                #![trigger es[k]]
                0 <= k < es.len() && (es[k] matches Some(e) && rs[i] == crate::engines::entries::entry_result(e, "googlenews"@, i as nat));
            assert(0 <= k < blocks.len());
        }
    }

    /// Parses an RSS response into at most `max` results, skipping an item
    /// whose date cannot be cut at its fifth and sixteenth bytes.
    pub fn parse_feed(&self, xml: &str, max: usize) -> (r: Vec<SearchResult>)
        ensures
            results_view(r@) == ranked_entries(
                Self::entries_of(Self::blocks_spec(xml@)),
                max as nat,
                "googlenews"@,
                false,
            ),
    {
        let fields = vec!["title", "link", "description", "pubDate"];
        assert(strs_view(fields@) =~= Self::fields());
        let blocks = select_blocks(xml, "item", &fields);
        let ghost bv = blocks_view(blocks@);
        let mut es: Vec<Option<Entry>> = Vec::new();
        let mut i: usize = 0;
        while i < blocks.len()
            invariant
                i <= blocks@.len(),
                bv == blocks_view(blocks@),
                es@.len() == i,
                entries_view(es@) == Self::entries_of(bv.take(i as int)),
            decreases blocks.len() - i,
        {
            let (e, bad) = Self::entry_of(&blocks[i]);
            assert(bv[i as int] == block_view(blocks@[i as int]@));
            let ghost prev = es@;
            es.push(if bad {
                None
            } else {
                e
            });
            assert forall|k: int| 0 <= k < i + 1 implies #[trigger] entries_view(es@)[k]
                == Self::entries_of(bv.take(i + 1))[k] by {
                if k < i {
                    assert(es@[k] == prev[k]);
                    assert(entries_view(prev)[k] == Self::entries_of(bv.take(i as int))[k]);
                }
            }
            assert(entries_view(es@) =~= Self::entries_of(bv.take(i + 1)));
            i += 1;
        }
        assert(bv.take(blocks@.len() as int) =~= bv);
        rank_entries(es, "googlenews", max, false)
    }

    /// The results, or this engine's error when there are none.
    pub fn finish(&self, out: Vec<SearchResult>) -> (r: Result<Vec<SearchResult>, EngineError>)
        ensures
            out@.len() > 0 ==> r == Ok::<Vec<SearchResult>, EngineError>(out),
            out@.len() == 0 ==> (r matches Err(EngineError::Parse(m)) && m@
                == "Google 新闻无结果或网络不可达"@),
    {
        if out.len() == 0 {
            return Err(EngineError::Parse(owned("Google 新闻无结果或网络不可达")));
        }
        Ok(out)
    }
}

} // verus!
