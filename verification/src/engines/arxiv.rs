//! arXiv (official Atom API). Each `entry` gives the title, the abstract page
//! (`id`), the summary and the publication date.
use vstd::prelude::*;

use crate::engines::common::{clean_text, clip, clip_spec, query_encoded, query_url_n};
use crate::engines::entries::{
    entries_view, opt_entry_view, rank_entries, ranked_entries, Entry, EntryView,
};
use crate::engines::html::{
    block_view, blocks_view, first_field, first_node, html_blocks, select_blocks, strs_view, Node,
    NodeView,
};
use crate::engines::EngineError;
use crate::models::{meta_view, results_view, Category, EngineMeta, ResultView, SearchResult};
use crate::text::{collapse_ws, decimal, owned, slice_if_long, slice_if_long_str, cut_fails};

verus! {

pub struct Arxiv;

impl Arxiv {
    /// Engine metadata.
    pub fn meta(&self) -> (r: EngineMeta)
        ensures
            meta_view(r) == ("arxiv"@, "arXiv"@, Category::Academic, false),
    {
        EngineMeta::new("arxiv", "arXiv", Category::Academic, false)
    }

    pub open spec fn url_spec(query: Seq<char>, max: nat) -> Seq<char> {
        "https://export.arxiv.org/api/query?search_query=all:"@ + query_encoded(query)
            + "&start=0&max_results="@ + decimal(
            if max < 50 {
                max
            } else {
                50
            },
        )
    }

    /// The API request URL, asking for at most 50 entries.
    pub fn search_url(&self, query: &str, max: usize) -> (r: String)
        ensures
            r@ == Self::url_spec(query@, max as nat),
    {
        let n: usize = if max < 50 {
            max
        } else {
            50
        };
        proof {
            reveal_strlit("");
            assert(""@ =~= Seq::<char>::empty());
        }
        query_url_n(
            "https://export.arxiv.org/api/query?search_query=all:",
            query,
            "&start=0&max_results=",
            n as u64,
            "",
        )
    }

    pub open spec fn fields() -> Seq<Seq<char>> {
        seq!["title"@, "id"@, "summary"@, "published"@]
    }

    /// The text of field `k`, whitespace collapsed (empty when absent).
    pub open spec fn text_of(b: Seq<Option<NodeView>>, k: int) -> Seq<char> {
        match first_node(b, k, k + 1) {
            Some(n) => collapse_ws(n.0),
            None => Seq::empty(),
        }
    }

    /// The entry a feed `entry` makes.
    pub open spec fn entry_spec(b: Seq<Option<NodeView>>) -> Option<EntryView> {
        let title = Self::text_of(b, 0);
        let url = Self::text_of(b, 1);
        if title.len() == 0 || url.len() == 0 {
            None
        } else {
            let snippet = match first_node(b, 2, 3) {
                Some(s) => clip_spec(s.0, 300),
                None => Seq::empty(),
            };
            let published = match first_node(b, 3, 4) {
                Some(p) => slice_if_long(collapse_ws(p.0), 10, 0, 10),
                None => None,
            };
            Some((title, url, snippet, published))
        }
    }

    /// The date of this `entry` cannot be cut at its tenth byte (that byte
    /// falls inside a character); such an entry is skipped.
    pub open spec fn bad_spec(b: Seq<Option<NodeView>>) -> bool {
        match first_node(b, 3, 4) {
            Some(p) => cut_fails(collapse_ws(p.0), 10, 0, 10),
            None => false,
        }
    }

    /// The entry that is kept: none when its date cannot be cut where the
    /// result's date is taken.
    pub open spec fn kept_spec(b: Seq<Option<NodeView>>) -> Option<EntryView> {
        if Self::bad_spec(b) {
            None
        } else {
            Self::entry_spec(b)
        }
    }

    pub open spec fn entries_of(blocks: Seq<Seq<Option<NodeView>>>) -> Seq<Option<EntryView>> {
        blocks.map_values(|b: Seq<Option<NodeView>>| Self::kept_spec(b))
    }

    pub open spec fn blocks_spec(xml: Seq<char>) -> Seq<Seq<Option<NodeView>>> {
        html_blocks(xml, "entry"@, Self::fields())
    }

    fn text_field(b: &Vec<Option<Node>>, k: usize) -> (r: String)
        requires
            k < usize::MAX,
        ensures
            r@ == Self::text_of(block_view(b@), k as int),
    {
        proof {
            reveal_strlit("");
            assert(""@ =~= Seq::<char>::empty());
        }
        match first_field(b, k, k + 1) {
            Some(n) => clean_text(n.text.as_str()),
            None => owned(""),
        }
    }

    fn entry_of(b: &Vec<Option<Node>>) -> (r: (Option<Entry>, bool))
        ensures
            opt_entry_view(r.0) == Self::entry_spec(block_view(b@)),
            r.1 == Self::bad_spec(block_view(b@)),
    {
        proof {
            reveal_strlit("");
            assert(""@ =~= Seq::<char>::empty());
        }
        let (published, bad) = match first_field(b, 3, 4) {
            Some(p) => slice_if_long_str(clean_text(p.text.as_str()).as_str(), 10, 0, 10),
            None => (None, false),
        };
        let title = Self::text_field(b, 0);
        let url = Self::text_field(b, 1);
        if title.as_str().is_empty() || url.as_str().is_empty() {
            return (None, bad);
        }
        let snippet = match first_field(b, 2, 3) {
            Some(s) => clip(s.text.as_str(), 300),
            None => owned(""),
        };
        (Some(Entry { title, url, snippet, published }), bad)
    }

    /// Each result is made from one `entry` of the feed, ranked by its
    /// position among the results: the entry's `title` text as title, its
    /// `id` text as link, and the clipped text of its `summary` as snippet
    /// (empty without one).
    pub proof fn law_results_from_feed(xml: Seq<char>, max: nat, blocks: Seq<Seq<Option<crate::engines::html::NodeView>>>)
        requires
            blocks == crate::engines::html::html_blocks(xml, "entry"@, seq!["title"@, "id"@, "summary"@, "published"@]),
        ensures
            crate::engines::entries::ranked_entries(Self::entries_of(Self::blocks_spec(xml)), max, "arxiv"@, false).len() <= max,
            forall|i: int|
                #![trigger crate::engines::entries::ranked_entries(Self::entries_of(Self::blocks_spec(xml)), max, "arxiv"@, false)[i]]
                0 <= i < crate::engines::entries::ranked_entries(Self::entries_of(Self::blocks_spec(xml)), max, "arxiv"@, false).len() ==> {
                    let rs = crate::engines::entries::ranked_entries(Self::entries_of(Self::blocks_spec(xml)), max, "arxiv"@, false);
                    &&& rs[i].source == "arxiv"@
                    &&& rs[i].rank == i
                    &&& exists|k: int| #![trigger blocks[k]] 0 <= k < blocks.len() && (match (crate::engines::html::first_node(blocks[k], 0, 1), crate::engines::html::first_node(blocks[k], 1, 2)) {
                    (Some(t), Some(u)) => rs[i].title == crate::models::clean_title_spec(crate::text::collapse_ws(t.0)) && rs[i].url == crate::text::collapse_ws(u.0)
                        && rs[i].snippet == match crate::engines::html::first_node(blocks[k], 2, 3) {
                            Some(s) => crate::engines::common::clip_spec(s.0, 300),
                            None => Seq::empty(),
                        },
                    _ => false,
                })
                },
    {
        assert(Self::fields() == seq!["title"@, "id"@, "summary"@, "published"@]);
        let es = Self::entries_of(blocks);
        assert(es == Self::entries_of(Self::blocks_spec(xml)));
        crate::engines::entries::lemma_ranked_entries_from(es, max, "arxiv"@, false);
        let rs = crate::engines::entries::ranked_entries(Self::entries_of(Self::blocks_spec(xml)), max, "arxiv"@, false);
        assert forall|i: int| #![trigger rs[i]] 0 <= i < rs.len() implies rs[i].source == "arxiv"@
            && rs[i].rank == i && exists|k: int| #![trigger blocks[k]] 0 <= k < blocks.len() && (match (crate::engines::html::first_node(blocks[k], 0, 1), crate::engines::html::first_node(blocks[k], 1, 2)) {
                    (Some(t), Some(u)) => rs[i].title == crate::models::clean_title_spec(crate::text::collapse_ws(t.0)) && rs[i].url == crate::text::collapse_ws(u.0)
                        && rs[i].snippet == match crate::engines::html::first_node(blocks[k], 2, 3) {
                            Some(s) => crate::engines::common::clip_spec(s.0, 300),
                            None => Seq::empty(),
                        },
                    _ => false,
                }) by {
            let k = choose|k: int|
                #![trigger es[k]]
                0 <= k < es.len() && (es[k] matches Some(e) && rs[i] == crate::engines::entries::entry_result(e, "arxiv"@, i as nat));
            assert(0 <= k < blocks.len());
        }
    }

    /// Parses an Atom response into at most `max` results, skipping an entry
    /// whose date cannot be cut at its tenth byte.
    pub fn parse_feed(&self, xml: &str, max: usize) -> (r: Vec<SearchResult>)
        ensures
            results_view(r@) == ranked_entries(
                Self::entries_of(Self::blocks_spec(xml@)),
                max as nat,
                "arxiv"@,
                false,
            ),
    {
        let fields = vec!["title", "id", "summary", "published"];
        assert(strs_view(fields@) =~= Self::fields());
        let blocks = select_blocks(xml, "entry", &fields);
        let ghost bv = blocks_view(blocks@);
        let mut es: Vec<Option<Entry>> = Vec::new();
        let mut i: usize = 0;
        while i < blocks.len()
            invariant
                i <= blocks@.len(),
                bv == blocks_view(blocks@),
                es@.len() == i,
                entries_view(es@) == Self::entries_of(bv.take(i as int)),
            decreases blocks.len() - i,
        {
            let (e, bad) = Self::entry_of(&blocks[i]);
            assert(bv[i as int] == block_view(blocks@[i as int]@));
            let ghost prev = es@;
            es.push(if bad {
                None
            } else {
                e
            });
            assert forall|k: int| 0 <= k < i + 1 implies #[trigger] entries_view(es@)[k]
                == Self::entries_of(bv.take(i + 1))[k] by {
                if k < i {
                    assert(es@[k] == prev[k]);
                    assert(entries_view(prev)[k] == Self::entries_of(bv.take(i as int))[k]);
                }
            }
            assert(entries_view(es@) =~= Self::entries_of(bv.take(i + 1)));
            i += 1;
        }
        assert(bv.take(blocks@.len() as int) =~= bv);
        rank_entries(es, "arxiv", max, false)
    }

    /// The results, or this engine's error when there are none.
    pub fn finish(&self, out: Vec<SearchResult>) -> (r: Result<Vec<SearchResult>, EngineError>)
        ensures
            out@.len() > 0 ==> r == Ok::<Vec<SearchResult>, EngineError>(out),
            out@.len() == 0 ==> (r matches Err(EngineError::Parse(m)) && m@ == "arXiv 无结果"@),
    {
        if out.len() == 0 {
            return Err(EngineError::Parse(owned("arXiv 无结果")));
        }
        Ok(out)
    }
}

} // verus!
