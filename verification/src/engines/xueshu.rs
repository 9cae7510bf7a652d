//! Baidu Scholar (HTML). Result blocks: `div.result.sc_default_result` ->
//! `h3.t a` (title / link), snippet `.c_abstract` / `.sc_abstract` /
//! `.abstract`. The `.sc_info` line (journal, year) gives the publication year
//! and stands in for a missing snippet.
use vstd::prelude::*;

use crate::engines::common::{absolute_url, clean_text, clip, clip_spec, joined_url, query_encoded, query_url};
use crate::engines::entries::{entries_view, opt_entry_view, rank_entries, ranked_entries, Entry, EntryView};
use crate::engines::html::{
    block_view, blocks_view, first_field, first_node, html_blocks, or_empty, select_blocks,
    strs_view, Node, NodeView,
};
use crate::engines::{nonempty_or, EngineError};
use crate::models::{meta_view, opt_view, results_view, Category, EngineMeta, ResultView, SearchResult};
use crate::text::{ascii_digit, chars_to_string, collapse_ws, is_ascii_digit, owned, slice_chars, str_chars};

verus! {

/// Referer sent with the request.
pub const REFERER: &'static str = "https://xueshu.baidu.com/";

/// Numeric value of an ASCII digit.
pub open spec fn digit_val(c: char) -> int {
    (c as u32) as int - 48
}

/// A maximal run of exactly four ASCII digits starts at `k` and reads a year
/// from 1900 to 2099.
pub open spec fn is_year_at(s: Seq<char>, k: int) -> bool {
    &&& 0 <= k
    &&& k + 4 <= s.len()
    &&& k == 0 || !is_ascii_digit(s[k - 1])
    &&& k + 4 == s.len() || !is_ascii_digit(s[k + 4])
    &&& is_ascii_digit(s[k])
    &&& is_ascii_digit(s[k + 1])
    &&& is_ascii_digit(s[k + 2])
    &&& is_ascii_digit(s[k + 3])
    &&& 1900 <= 1000 * digit_val(s[k]) + 100 * digit_val(s[k + 1]) + 10 * digit_val(s[k + 2])
        + digit_val(s[k + 3]) <= 2099
}

/// The first year in `s` at or after position `k`.
pub open spec fn first_year_from(s: Seq<char>, k: int) -> Option<Seq<char>>
    decreases s.len() - k,
{
    if k < 0 || k + 4 > s.len() {
        None
    } else if is_year_at(s, k) {
        Some(s.subrange(k, k + 4))
    } else {
        first_year_from(s, k + 1)
    }
}

/// The first four-digit number from 1900 to 2099 in `s` (among the runs of
/// ASCII digits, in order).
pub open spec fn year_of(s: Seq<char>) -> Option<Seq<char>> {
    first_year_from(s, 0)
}

fn digit_value(c: char) -> (r: u32)
    requires
        is_ascii_digit(c),
    ensures
        r == digit_val(c),
        r < 10,
{
    (c as u32) - 48
}

fn year_at(v: &Vec<char>, k: usize) -> (r: bool)
    requires
        k + 4 <= v@.len(),
    ensures
        r == is_year_at(v@, k as int),
{
    if k > 0 && ascii_digit(v[k - 1]) {
        return false;
    }
    if v.len() - k > 4 && ascii_digit(v[k + 4]) {
        return false;
    }
    if !(ascii_digit(v[k]) && ascii_digit(v[k + 1]) && ascii_digit(v[k + 2]) && ascii_digit(v[k + 3])) {
        return false;
    }
    let y = 1000 * digit_value(v[k]) + 100 * digit_value(v[k + 1]) + 10 * digit_value(v[k + 2])
        + digit_value(v[k + 3]);
    1900 <= y && y <= 2099
}

/// Extracts a four-digit year (1900 to 2099) from a text.
pub fn extract_year(text: &str) -> (r: Option<String>)
    ensures
        opt_view(r) == year_of(text@),
{
    let v = str_chars(text);
    let mut k: usize = 0;
    while k < v.len() && v.len() - k >= 4
        invariant
            k <= v@.len(),
            v@ == text@,
            year_of(v@) == first_year_from(v@, k as int),
        decreases v.len() - k,
    {
        if year_at(&v, k) {
            let y = slice_chars(&v, k, k + 4);
            assert(first_year_from(v@, k as int) == Some(v@.subrange(k as int, k + 4)));
            return Some(chars_to_string(y.as_slice()));
        }
        k += 1;
    }
    None
}

pub struct Xueshu;

impl Xueshu {
    /// Engine metadata.
    pub fn meta(&self) -> (r: EngineMeta)
        ensures
            meta_view(r) == ("xueshu"@, "百度学术"@, Category::Academic, false),
    {
        EngineMeta::new("xueshu", "百度学术", Category::Academic, false)
    }

    pub open spec fn url_spec(query: Seq<char>) -> Seq<char> {
        "https://xueshu.baidu.com/s?wd="@ + query_encoded(query) + "&ie=utf-8"@
    }

    /// The search request URL.
    pub fn search_url(&self, query: &str) -> (r: String)
        ensures
            r@ == Self::url_spec(query@),
    {
        query_url("https://xueshu.baidu.com/s?wd=", query, "&ie=utf-8")
    }

    pub open spec fn fields() -> Seq<Seq<char>> {
        seq!["h3.t a, h3 a"@, ".c_abstract"@, ".sc_abstract"@, ".abstract"@, ".sc_info"@]
    }

    /// The entry a result block makes.
    pub open spec fn entry_spec(b: Seq<Option<NodeView>>) -> Option<EntryView> {
        match first_node(b, 0, 1) {
            None => None,
            Some(a) => {
                let title = collapse_ws(a.0);
                let url = or_empty(joined_url("https://xueshu.baidu.com/"@, or_empty(a.1)));
                if title.len() == 0 || url.len() == 0 {
                    None
                } else {
                    let snippet = match first_node(b, 1, 4) {
                        Some(s) => clip_spec(s.0, 300),
                        None => Seq::empty(),
                    };
                    match first_node(b, 4, 5) {
                        None => Some((title, url, snippet, None)),
                        Some(info) => {
                            let text = collapse_ws(info.0);
                            let snippet = if snippet.len() == 0 && text.len() > 0 {
                                clip_spec(text, 300)
                            } else {
                                snippet
                            };
                            Some((title, url, snippet, year_of(text)))
                        },
                    }
                }
            },
        }
    }

    pub open spec fn entries_of(blocks: Seq<Seq<Option<NodeView>>>) -> Seq<Option<EntryView>> {
        blocks.map_values(|b: Seq<Option<NodeView>>| Self::entry_spec(b))
    }

    pub open spec fn entries_spec(html: Seq<char>) -> Seq<Option<EntryView>> {
        Self::entries_of(html_blocks(html, "div.result.sc_default_result"@, Self::fields()))
    }

    /// The results a result page holds.
    pub open spec fn results_spec(html: Seq<char>, max: nat) -> Seq<ResultView> {
        ranked_entries(Self::entries_spec(html), max, "xueshu"@, false)
    }

    fn entry_of(b: &Vec<Option<Node>>) -> (r: Option<Entry>)
        ensures
            opt_entry_view(r) == Self::entry_spec(block_view(b@)),
    {
        proof {
            reveal_strlit("");
            assert(""@ =~= Seq::<char>::empty());
        }
        let a = match first_field(b, 0, 1) {
            Some(a) => a,
            None => return None,
        };
        let title = clean_text(a.text.as_str());
        let href: &str = match &a.href {
            Some(h) => h.as_str(),
            None => "",
        };
        let url = match absolute_url("https://xueshu.baidu.com/", href) {
            Some(u) => u,
            None => owned(""),
        };
        if title.as_str().is_empty() || url.as_str().is_empty() {
            return None;
        }
        let snippet = match first_field(b, 1, 4) {
            Some(s) => clip(s.text.as_str(), 300),
            None => owned(""),
        };
        match first_field(b, 4, 5) {
            None => Some(Entry { title, url, snippet, published: None }),
            Some(info) => {
                let text = clean_text(info.text.as_str());
                let snippet = if snippet.as_str().is_empty() && !text.as_str().is_empty() {
                    clip(text.as_str(), 300)
                } else {
                    snippet
                };
                let published = extract_year(text.as_str());
                Some(Entry { title, url, snippet, published })
            },
        }
    }

    /// Each result is made from one `div.result.sc_default_result` block,
    /// ranked by its position among the results: the title and link of its
    /// first `h3 a` (the link resolved against the site), and, when it has
    /// an abstract with text, that abstract clipped as snippet.
    pub proof fn law_results_from_blocks(html: Seq<char>, max: nat, blocks: Seq<Seq<Option<crate::engines::html::NodeView>>>)
        requires
            blocks == crate::engines::html::html_blocks(html, "div.result.sc_default_result"@, seq!["h3.t a, h3 a"@, ".c_abstract"@, ".sc_abstract"@, ".abstract"@, ".sc_info"@]),
        ensures
            crate::engines::entries::ranked_entries(Self::entries_spec(html), max, "xueshu"@, false).len() <= max,
            forall|i: int|
                #![trigger crate::engines::entries::ranked_entries(Self::entries_spec(html), max, "xueshu"@, false)[i]]
                0 <= i < crate::engines::entries::ranked_entries(Self::entries_spec(html), max, "xueshu"@, false).len() ==> {
                    let rs = crate::engines::entries::ranked_entries(Self::entries_spec(html), max, "xueshu"@, false);
                    &&& rs[i].source == "xueshu"@
                    &&& rs[i].rank == i
                    &&& exists|k: int| #![trigger blocks[k]] 0 <= k < blocks.len() && (match crate::engines::html::first_node(blocks[k], 0, 1) {
                    Some(a) => rs[i].title == crate::models::clean_title_spec(crate::text::collapse_ws(a.0))
                        && rs[i].url == crate::engines::html::or_empty(crate::engines::common::joined_url("https://xueshu.baidu.com/"@, crate::engines::html::or_empty(a.1)))
                        && (match crate::engines::html::first_node(blocks[k], 1, 4) {
                            Some(s) => crate::engines::common::clip_spec(s.0, 300).len() > 0 ==> rs[i].snippet == crate::engines::common::clip_spec(s.0, 300),
                            None => true,
                        }),
                    None => false,
                })
                },
    {
        assert(Self::fields() == seq!["h3.t a, h3 a"@, ".c_abstract"@, ".sc_abstract"@, ".abstract"@, ".sc_info"@]);
        let es = Self::entries_of(blocks);
        assert(es == Self::entries_spec(html));
        crate::engines::entries::lemma_ranked_entries_from(es, max, "xueshu"@, false);
        let rs = crate::engines::entries::ranked_entries(Self::entries_spec(html), max, "xueshu"@, false);
        assert forall|i: int| #![trigger rs[i]] 0 <= i < rs.len() implies rs[i].source == "xueshu"@
            && rs[i].rank == i && exists|k: int| #![trigger blocks[k]] 0 <= k < blocks.len() && (match crate::engines::html::first_node(blocks[k], 0, 1) {
                    Some(a) => rs[i].title == crate::models::clean_title_spec(crate::text::collapse_ws(a.0))
                        && rs[i].url == crate::engines::html::or_empty(crate::engines::common::joined_url("https://xueshu.baidu.com/"@, crate::engines::html::or_empty(a.1)))
                        && (match crate::engines::html::first_node(blocks[k], 1, 4) {
                            Some(s) => crate::engines::common::clip_spec(s.0, 300).len() > 0 ==> rs[i].snippet == crate::engines::common::clip_spec(s.0, 300),
                            None => true,
                        }),
                    None => false,
                }) by {
            let k = choose|k: int|
                #![trigger es[k]]
                0 <= k < es.len() && (es[k] matches Some(e) && rs[i] == crate::engines::entries::entry_result(e, "xueshu"@, i as nat));
            assert(0 <= k < blocks.len());
        }
    }

    /// Parses a result page into at most `max` results.
    pub fn parse_html(&self, html: &str, max: usize) -> (r: Vec<SearchResult>)
        ensures
            results_view(r@) == Self::results_spec(html@, max as nat),
    {
        let fields = vec!["h3.t a, h3 a", ".c_abstract", ".sc_abstract", ".abstract", ".sc_info"];
        assert(strs_view(fields@) =~= Self::fields());
        let blocks = select_blocks(html, "div.result.sc_default_result", &fields);
        let ghost bv = blocks_view(blocks@);
        let mut es: Vec<Option<Entry>> = Vec::new();
        let mut i: usize = 0;
        while i < blocks.len()
            invariant
                i <= blocks@.len(),
                bv == blocks_view(blocks@),
                es@.len() == i,
                entries_view(es@) == Self::entries_of(bv.take(i as int)),
            decreases blocks.len() - i,
        {
            let e = Self::entry_of(&blocks[i]);
            assert(bv[i as int] == block_view(blocks@[i as int]@));
            let ghost prev = es@;
            es.push(e);
            assert forall|k: int| 0 <= k < i + 1 implies #[trigger] entries_view(es@)[k]
                == Self::entries_of(bv.take(i + 1))[k] by {
                if k < i {
                    assert(es@[k] == prev[k]);
                    assert(entries_view(prev)[k] == Self::entries_of(bv.take(i as int))[k]);
                }
            }
            assert(entries_view(es@) =~= Self::entries_of(bv.take(i + 1)));
            i += 1;
        }
        assert(bv.take(blocks@.len() as int) =~= bv);
        rank_entries(es, "xueshu", max, false)
    }

    /// The results, or this engine's error when there are none.
    pub fn finish(&self, out: Vec<SearchResult>) -> (r: Result<Vec<SearchResult>, EngineError>)
        ensures
            out@.len() > 0 ==> r == Ok::<Vec<SearchResult>, EngineError>(out),
            out@.len() == 0 ==> (r matches Err(EngineError::Blocked(m)) && m@ == "无结果或触发反爬"@),
    {
        nonempty_or(out, EngineError::Blocked(owned("无结果或触发反爬")))
    }
}

} // verus!
