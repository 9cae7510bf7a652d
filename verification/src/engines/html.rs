//! Result-block extraction from HTML pages.
//!
//! The HTML parser and CSS selector engine (`scraper`) read a page into plain
//! values: for each element matching a container selector, the first element
//! matching each field selector inside it (its text and `href`). The verified
//! code below turns those values into search results.
use vstd::prelude::*;

use crate::engines::common::{absolute_url, clean_text, clip, clip_spec, joined_url};
use crate::models::{new_result, opt_view, ResultView, SearchResult, results_view};
use crate::text::{
    chars_to_string, collapse_ws, owned, push_str, starts_with, str_chars, str_starts_with,
};

verus! {

/// The first element matching a field selector inside a result block.
#[derive(Debug)]
pub struct Node {
    /// All text below the element, concatenated.
    pub text: String,
    /// Its `href` attribute.
    pub href: Option<String>,
}

/// Plain view of a [`Node`]: (text, href).
pub type NodeView = (Seq<char>, Option<Seq<char>>);

pub open spec fn node_view(n: Option<Node>) -> Option<NodeView> {
    match n {
        Some(n) => Some((n.text@, opt_view(n.href))),
        None => None,
    }
}

pub open spec fn block_view(b: Seq<Option<Node>>) -> Seq<Option<NodeView>> {
    b.map_values(|n: Option<Node>| node_view(n))
}

pub open spec fn blocks_view(v: Seq<Vec<Option<Node>>>) -> Seq<Seq<Option<NodeView>>> {
    v.map_values(|b: Vec<Option<Node>>| block_view(b@))
}

pub open spec fn strs_view(v: Seq<&str>) -> Seq<Seq<char>> {
    v.map_values(|s: &str| s@)
}

/// What `scraper` reads from `html`: for each element matching the CSS
/// selector `container`, in document order, and for each selector of
/// `fields`, the first matching element below it (`None` when there is none or
/// the selector does not parse). Empty when `container` does not parse.
pub uninterp spec fn html_blocks(
    html: Seq<char>,
    container: Seq<char>,
    fields: Seq<Seq<char>>,
) -> Seq<Seq<Option<NodeView>>>;

/// `scraper::Html::parse_document`, `Selector::parse`, `select`, read back as plain values.
#[verifier::external_body]
pub(crate) fn select_blocks(html: &str, container: &str, fields: &Vec<&str>) -> (r: Vec<Vec<Option<Node>>>)
    ensures
        blocks_view(r@) == html_blocks(html@, container@, strs_view(fields@)),
{
    let doc = scraper::Html::parse_document(html);
    let Ok(cont) = scraper::Selector::parse(container) else { return Vec::new() };
    let sels: Vec<_> = fields.iter().map(|f| scraper::Selector::parse(f).ok()).collect();
    doc.select(&cont).map(|el| sels.iter().map(|s| s.as_ref().and_then(|s| el.select(s).next())
        .map(|e| Node { text: e.text().collect(), href: e.value().attr("href").map(String::from) }))
        .collect()).collect()
}

/// How the link of a block becomes the result URL.
#[derive(Debug, Clone, Copy)]
pub enum LinkRule<'a> {
    /// Resolved against the page URL.
    Join(&'a str),
    /// Kept when it starts with "http", else appended to the site prefix.
    Prefix(&'a str),
    /// Kept as it is.
    Raw,
    /// Kept as it is; blocks whose link does not start with "http" are skipped.
    RawHttp,
}

/// Which fields of a block give the link, the title and the snippet; each is
/// a range of alternatives, the first one present wins.
#[derive(Debug, Clone, Copy)]
pub struct Layout {
    /// Fields giving the link element (its text is the title unless `title` is set).
    pub link: (usize, usize),
    /// Fields giving a separate title element.
    pub title: Option<(usize, usize)>,
    /// Fields giving the snippet element.
    pub snippet: (usize, usize),
}

/// The first present field among `b[lo..hi]`.
pub open spec fn first_node(b: Seq<Option<NodeView>>, lo: int, hi: int) -> Option<NodeView>
    decreases hi - lo,
{
    if lo >= hi || lo < 0 || lo >= b.len() {
        None
    } else if b[lo] is Some {
        b[lo]
    } else {
        first_node(b, lo + 1, hi)
    }
}

pub open spec fn or_empty(o: Option<Seq<char>>) -> Seq<char> {
    match o {
        Some(s) => s,
        None => Seq::empty(),
    }
}

/// The URL a link turns into.
pub open spec fn link_target(rule: LinkRule, href: Seq<char>) -> Seq<char> {
    match rule {
        LinkRule::Join(base) => or_empty(joined_url(base@, href)),
        LinkRule::Prefix(p) => if starts_with(href, "http"@) {
            href
        } else {
            p@ + href
        },
        LinkRule::Raw => href,
        LinkRule::RawHttp => href,
    }
}

/// (title, url, snippet) of a block, when it makes a result.
pub open spec fn block_item(b: Seq<Option<NodeView>>, layout: Layout, rule: LinkRule) -> Option<
    (Seq<char>, Seq<char>, Seq<char>),
> {
    match first_node(b, layout.link.0 as int, layout.link.1 as int) {
        None => None,
        Some(a) => {
            let tnode = match layout.title {
                Some(t) => first_node(b, t.0 as int, t.1 as int),
                None => Some(a),
            };
            match tnode {
                None => None,
                Some(t) => {
                    let title = collapse_ws(t.0);
                    let href = or_empty(a.1);
                    let url = link_target(rule, href);
                    if title.len() == 0 || url.len() == 0 || (rule is RawHttp && !starts_with(
                        href,
                        "http"@,
                    )) {
                        None
                    } else {
                        let snippet = match first_node(
                            b,
                            layout.snippet.0 as int,
                            layout.snippet.1 as int,
                        ) {
                            Some(s) => clip_spec(s.0, 300),
                            None => Seq::empty(),
                        };
                        Some((title, url, snippet))
                    }
                },
            }
        },
    }
}

/// The items the blocks make, in order.
pub open spec fn block_items(blocks: Seq<Seq<Option<NodeView>>>, layout: Layout, rule: LinkRule) -> Seq<
    (Seq<char>, Seq<char>, Seq<char>),
>
    decreases blocks.len(),
{
    if blocks.len() == 0 {
        seq![]
    } else {
        let prev = block_items(blocks.drop_last(), layout, rule);
        match block_item(blocks.last(), layout, rule) {
            Some(it) => prev.push(it),
            None => prev,
        }
    }
}

/// The first `max` items as results of `source`, ranked by position.
pub open spec fn ranked(items: Seq<(Seq<char>, Seq<char>, Seq<char>)>, max: nat, source: Seq<char>) -> Seq<
    ResultView,
> {
    let n = if items.len() < max {
        items.len()
    } else {
        max
    };
    Seq::new(n, |i: int| new_result(items[i].0, items[i].1, items[i].2, source, i as nat))
}

/// Each item comes from one block: the item a block gives on its own.
pub proof fn lemma_items_from_blocks(
    blocks: Seq<Seq<Option<NodeView>>>,
    layout: Layout,
    rule: LinkRule,
)
    ensures
        forall|i: int|
            #![trigger block_items(blocks, layout, rule)[i]]
            0 <= i < block_items(blocks, layout, rule).len() ==> exists|k: int|
                #![trigger blocks[k]]
                0 <= k < blocks.len() && block_item(blocks[k], layout, rule) == Some(
                    block_items(blocks, layout, rule)[i],
                ),
    decreases blocks.len(),
{
    if blocks.len() > 0 {
        let p = blocks.drop_last();
        lemma_items_from_blocks(p, layout, rule);
        let prev = block_items(p, layout, rule);
        let items = block_items(blocks, layout, rule);
        assert forall|i: int|
            #![trigger items[i]]
            0 <= i < items.len() implies exists|k: int|
                #![trigger blocks[k]]
                0 <= k < blocks.len() && block_item(blocks[k], layout, rule) == Some(items[i]) by {
            if i < prev.len() {
                assert(items[i] == prev[i]);
                let k = choose|k: int|
                    #![trigger p[k]]
                    0 <= k < p.len() && block_item(p[k], layout, rule) == Some(prev[i]);
                assert(blocks[k] == p[k]);
            } else {
                assert(blocks[blocks.len() - 1] == blocks.last());
            }
        }
    }
}

/// Each ranked result is the item of one block, with its rank and source.
pub proof fn lemma_ranked_from_blocks(
    blocks: Seq<Seq<Option<NodeView>>>,
    layout: Layout,
    rule: LinkRule,
    max: nat,
    source: Seq<char>,
)
    ensures
        ranked(block_items(blocks, layout, rule), max, source).len() <= max,
        forall|i: int|
            #![trigger ranked(block_items(blocks, layout, rule), max, source)[i]]
            0 <= i < ranked(block_items(blocks, layout, rule), max, source).len() ==> exists|k: int|
                #![trigger blocks[k]]
                0 <= k < blocks.len() && (block_item(blocks[k], layout, rule) matches Some(it)
                    && ranked(block_items(blocks, layout, rule), max, source)[i] == new_result(
                    it.0,
                    it.1,
                    it.2,
                    source,
                    i as nat,
                )),
{
    lemma_items_from_blocks(blocks, layout, rule);
    let items = block_items(blocks, layout, rule);
    let rs = ranked(items, max, source);
    assert forall|i: int|
        #![trigger rs[i]]
        0 <= i < rs.len() implies exists|k: int|
            #![trigger blocks[k]]
            0 <= k < blocks.len() && (block_item(blocks[k], layout, rule) matches Some(it) && rs[i]
                == new_result(it.0, it.1, it.2, source, i as nat)) by {
        assert(0 <= i < items.len());
        let k = choose|k: int|
            #![trigger blocks[k]]
            0 <= k < blocks.len() && block_item(blocks[k], layout, rule) == Some(items[i]);
        assert(rs[i] == new_result(items[i].0, items[i].1, items[i].2, source, i as nat));
    }
}

/// Every block that gives an item contributes it, in place.
pub proof fn lemma_blocks_to_items(blocks: Seq<Seq<Option<NodeView>>>, layout: Layout, rule: LinkRule)
    ensures
        block_items(blocks, layout, rule).len() <= blocks.len(),
        forall|k: int|
            #![trigger blocks[k]]
            0 <= k < blocks.len() && block_item(blocks[k], layout, rule) is Some ==> block_items(
                blocks,
                layout,
                rule,
            ).contains(block_item(blocks[k], layout, rule)->0),
    decreases blocks.len(),
{
    if blocks.len() > 0 {
        let p = blocks.drop_last();
        lemma_blocks_to_items(p, layout, rule);
        let prev = block_items(p, layout, rule);
        let items = block_items(blocks, layout, rule);
        assert forall|k: int|
            #![trigger blocks[k]]
            0 <= k < blocks.len() && block_item(blocks[k], layout, rule) is Some implies items.contains(
                block_item(blocks[k], layout, rule)->0,
            ) by {
            if k < p.len() {
                assert(blocks[k] == p[k]);
                let it = block_item(p[k], layout, rule)->0;
                assert(prev.contains(it));
                let n = choose|n: int| 0 <= n < prev.len() && prev[n] == it;
                assert(items[n] == prev[n]);
            } else {
                assert(blocks[k] == blocks.last());
                assert(items[items.len() - 1] == block_item(blocks.last(), layout, rule)->0);
            }
        }
    }
}

/// When `max` is at least the number of blocks, each block that gives an
/// item gives a result with its title, link and snippet.
pub proof fn lemma_blocks_to_results(
    blocks: Seq<Seq<Option<NodeView>>>,
    layout: Layout,
    rule: LinkRule,
    max: nat,
    source: Seq<char>,
)
    requires
        max >= blocks.len(),
    ensures
        forall|k: int|
            #![trigger blocks[k]]
            0 <= k < blocks.len() && block_item(blocks[k], layout, rule) is Some ==> exists|i: int|
                #![trigger ranked(block_items(blocks, layout, rule), max, source)[i]]
                0 <= i < ranked(block_items(blocks, layout, rule), max, source).len() && ({
                    let it = block_item(blocks[k], layout, rule)->0;
                    let r = ranked(block_items(blocks, layout, rule), max, source)[i];
                    &&& r.title == crate::models::clean_title_spec(it.0)
                    &&& r.url == it.1
                    &&& r.snippet == it.2
                }),
{
    lemma_blocks_to_items(blocks, layout, rule);
    let items = block_items(blocks, layout, rule);
    let rs = ranked(items, max, source);
    assert forall|k: int|
        #![trigger blocks[k]]
        0 <= k < blocks.len() && block_item(blocks[k], layout, rule) is Some implies exists|i: int|
            #![trigger rs[i]]
            0 <= i < rs.len() && ({
                let it = block_item(blocks[k], layout, rule)->0;
                let r = rs[i];
                &&& r.title == crate::models::clean_title_spec(it.0)
                &&& r.url == it.1
                &&& r.snippet == it.2
            }) by {
        let it = block_item(blocks[k], layout, rule)->0;
        let n = choose|n: int| 0 <= n < items.len() && items[n] == it;
        assert(rs[n] == new_result(items[n].0, items[n].1, items[n].2, source, n as nat));
    }
}

pub proof fn lemma_block_items_prefix(
    blocks: Seq<Seq<Option<NodeView>>>,
    i: int,
    layout: Layout,
    rule: LinkRule,
)
    requires
        0 <= i <= blocks.len(),
    ensures
        block_items(blocks.take(i), layout, rule).len() <= block_items(blocks, layout, rule).len(),
        block_items(blocks.take(i), layout, rule) == block_items(blocks, layout, rule).take(
            block_items(blocks.take(i), layout, rule).len() as int,
        ),
    decreases blocks.len() - i,
{
    if i < blocks.len() {
        lemma_block_items_prefix(blocks, i + 1, layout, rule);
        assert(blocks.take(i + 1).drop_last() =~= blocks.take(i));
        let a = block_items(blocks.take(i), layout, rule);
        let b = block_items(blocks.take(i + 1), layout, rule);
        let c = block_items(blocks, layout, rule);
        assert(b.take(a.len() as int) =~= a);
        assert(c.take(b.len() as int).take(a.len() as int) =~= c.take(a.len() as int));
    } else {
        assert(blocks.take(i) =~= blocks);
        let c = block_items(blocks, layout, rule);
        assert(c.take(c.len() as int) =~= c);
    }
}

pub fn first_of(b: &Vec<Option<Node>>, lo: usize, hi: usize) -> (r: Option<usize>)
    ensures
        match r {
            Some(k) => lo <= k < hi && k < b@.len() && b@[k as int] is Some && first_node(
                block_view(b@),
                lo as int,
                hi as int,
            ) == node_view(b@[k as int]),
            None => first_node(block_view(b@), lo as int, hi as int) is None,
        },
    decreases hi - lo,
{
    if lo >= hi || lo >= b.len() {
        return None;
    }
    assert(block_view(b@)[lo as int] == node_view(b@[lo as int]));
    match &b[lo] {
        Some(_) => Some(lo),
        None => first_of(b, lo + 1, hi),
    }
}

pub fn node_at(b: &Vec<Option<Node>>, k: usize) -> (r: &Node)
    requires
        k < b@.len(),
        b@[k as int] is Some,
    ensures
        Some(*r) == b@[k as int],
{
    match &b[k] {
        Some(n) => n,
        None => b[k].as_ref().unwrap(),
    }
}


/// The first present field among `b[lo..hi]`.
pub fn first_field(b: &Vec<Option<Node>>, lo: usize, hi: usize) -> (r: Option<&Node>)
    ensures
        match r {
            Some(n) => first_node(block_view(b@), lo as int, hi as int) == Some(
                (n.text@, opt_view(n.href)),
            ),
            None => first_node(block_view(b@), lo as int, hi as int) is None,
        },
{
    match first_of(b, lo, hi) {
        Some(k) => Some(node_at(b, k)),
        None => None,
    }
}

fn link_url(rule: LinkRule, href: &str) -> (r: String)
    ensures
        r@ == link_target(rule, href@),
{
    proof {
        reveal_strlit("");
        assert(""@ =~= Seq::<char>::empty());
    }
    match rule {
        LinkRule::Join(base) => match absolute_url(base, href) {
            Some(u) => u,
            None => owned(""),
        },
        LinkRule::Prefix(p) => {
            if str_starts_with(href, "http") {
                owned(href)
            } else {
                let mut v = str_chars(p);
                push_str(&mut v, href);
                chars_to_string(v.as_slice())
            }
        },
        LinkRule::Raw => owned(href),
        LinkRule::RawHttp => owned(href),
    }
}

/// (title, url, snippet) of one block, when it makes a result.
pub fn extract_item(b: &Vec<Option<Node>>, layout: Layout, rule: LinkRule) -> (r: Option<
    (String, String, String),
>)
    ensures
        match r {
            Some(t) => block_item(block_view(b@), layout, rule) == Some((t.0@, t.1@, t.2@)),
            None => block_item(block_view(b@), layout, rule) is None,
        },
{
    proof {
        reveal_strlit("");
        assert(""@ =~= Seq::<char>::empty());
    }
    let ka = match first_of(b, layout.link.0, layout.link.1) {
        Some(k) => k,
        None => return None,
    };
    let a = node_at(b, ka);
    let t = match layout.title {
        Some(range) => match first_of(b, range.0, range.1) {
            Some(kt) => node_at(b, kt),
            None => return None,
        },
        None => a,
    };
    let title = clean_text(t.text.as_str());
    let href: &str = match &a.href {
        Some(h) => h.as_str(),
        None => "",
    };
    let url = link_url(rule, href);
    let http_ok = match rule {
        LinkRule::RawHttp => str_starts_with(href, "http"),
        _ => true,
    };
    assert(href@ == or_empty(node_view(b@[ka as int]).unwrap().1));
    assert(http_ok == !(rule is RawHttp && !starts_with(href@, "http"@)));
    if title.as_str().is_empty() || url.as_str().is_empty() || !http_ok {
        return None;
    }
    let snippet = match first_of(b, layout.snippet.0, layout.snippet.1) {
        Some(ks) => clip(node_at(b, ks).text.as_str(), 300),
        None => owned(""),
    };
    Some((title, url, snippet))
}


/// Plain view of (title, url, snippet) items.
pub open spec fn items_view(v: Seq<(String, String, String)>) -> Seq<(Seq<char>, Seq<char>, Seq<char>)> {
    v.map_values(|t: (String, String, String)| (t.0@, t.1@, t.2@))
}

/// Every (title, url, snippet) item the blocks make, in order.
pub fn collect_items(blocks: &Vec<Vec<Option<Node>>>, layout: Layout, rule: LinkRule) -> (r: Vec<
    (String, String, String),
>)
    ensures
        items_view(r@) == block_items(blocks_view(blocks@), layout, rule),
{
    let ghost bv = blocks_view(blocks@);
    let mut out: Vec<(String, String, String)> = Vec::new();
    let mut i: usize = 0;
    while i < blocks.len()
        invariant
            i <= blocks@.len(),
            bv == blocks_view(blocks@),
            items_view(out@) == block_items(bv.take(i as int), layout, rule),
        decreases blocks.len() - i,
    {
        assert(bv.take(i + 1).drop_last() =~= bv.take(i as int));
        assert(bv.take(i + 1).last() == block_view(blocks@[i as int]@));
        match extract_item(&blocks[i], layout, rule) {
            Some(t) => {
                out.push(t);
                assert(items_view(out@) =~= block_items(bv.take(i + 1), layout, rule));
            },
            None => {},
        }
        i += 1;
    }
    assert(bv.take(blocks@.len() as int) =~= bv);
    out
}

/// The first `max` items as results of `source`, ranked by position.
pub fn rank_items(items: &Vec<(String, String, String)>, source: &str, max: usize) -> (r: Vec<
    SearchResult,
>)
    ensures
        results_view(r@) == ranked(items_view(items@), max as nat, source@),
{
    let ghost want = ranked(items_view(items@), max as nat, source@);
    let n: usize = if items.len() < max {
        items.len()
    } else {
        max
    };
    let mut out: Vec<SearchResult> = Vec::new();
    let mut i: usize = 0;
    while i < n
        invariant
            i <= n,
            n <= items@.len(),
            n == want.len(),
            want == ranked(items_view(items@), max as nat, source@),
            results_view(out@) == want.take(i as int),
        decreases n - i,
    {
        let t = &items[i];
        let (a, b, c) = (t.0.clone(), t.1.clone(), t.2.clone());
        assert(items_view(items@)[i as int] == (a@, b@, c@));
        let r = SearchResult::new(a, b, c, source, i);
        assert(r@ == want[i as int]);
        let ghost prev = out@;
        assert(results_view(prev).len() == prev.len());
        assert(prev.len() == i);
        out.push(r);
        assert forall|k: int| 0 <= k < i + 1 implies #[trigger] results_view(out@)[k] == want.take(
            i + 1,
        )[k] by {
            if k < i {
                assert(results_view(prev)[k] == want.take(i as int)[k]);
                assert(out@[k] == prev[k]);
            }
        }
        assert(results_view(out@) =~= want.take(i + 1));
        i += 1;
    }
    assert(want.take(n as int) =~= want);
    out
}

/// Results of `source` from the blocks of a page: the blocks that make an
/// item, in order, the first `max` of them, ranked by position.
pub fn assemble(
    blocks: &Vec<Vec<Option<Node>>>,
    layout: Layout,
    rule: LinkRule,
    source: &str,
    max: usize,
) -> (r: Vec<SearchResult>)
    ensures
        results_view(r@) == ranked(block_items(blocks_view(blocks@), layout, rule), max as nat, source@),
{
    let ghost bv = blocks_view(blocks@);
    let ghost all = block_items(bv, layout, rule);
    let mut out: Vec<SearchResult> = Vec::new();
    let mut i: usize = 0;
    while i < blocks.len()
        invariant
            i <= blocks@.len(),
            bv == blocks_view(blocks@),
            all == block_items(bv, layout, rule),
            out@.len() <= max,
            out@.len() == block_items(bv.take(i as int), layout, rule).len(),
            results_view(out@) == ranked(block_items(bv.take(i as int), layout, rule), max as nat, source@),
        ensures
            i <= blocks@.len(),
            out@.len() <= max,
            out@.len() == block_items(bv.take(i as int), layout, rule).len(),
            results_view(out@) == ranked(block_items(bv.take(i as int), layout, rule), max as nat, source@),
            i == blocks@.len() || out@.len() >= max,
        decreases blocks.len() - i,
    {
        if out.len() >= max {
            break;
        }
        let ghost before = block_items(bv.take(i as int), layout, rule);
        assert(bv.take(i + 1).drop_last() =~= bv.take(i as int));
        assert(bv.take(i + 1).last() == block_view(blocks@[i as int]@));
        match extract_item(&blocks[i], layout, rule) {
            Some(t) => {
                let rank = out.len();
                let r = SearchResult::new(t.0, t.1, t.2, source, rank);
                out.push(r);
                let ghost after = block_items(bv.take(i + 1), layout, rule);
                assert(after == before.push((t.0@, t.1@, t.2@)));
                assert forall|k: int| 0 <= k < out@.len() implies #[trigger] results_view(out@)[k]
                    == ranked(after, max as nat, source@)[k] by {
                    if k < rank {
                        assert(results_view(out@)[k] == out@[k]@);
                        assert(ranked(before, max as nat, source@)[k] == results_view(out@)[k]);
                        assert(after[k] == before[k]);
                    }
                }
                assert(results_view(out@) =~= ranked(after, max as nat, source@));
            },
            None => {},
        }
        i += 1;
    }
    proof {
        lemma_block_items_prefix(bv, i as int, layout, rule);
        let done = block_items(bv.take(i as int), layout, rule);
        if i == blocks.len() {
            assert(bv.take(i as int) =~= bv);
        }
        assert forall|k: int| 0 <= k < done.len() implies #[trigger] done[k] == all[k] by {
            assert(done[k] == all.take(done.len() as int)[k]);
        }
        assert(ranked(done, max as nat, source@) =~= ranked(all, max as nat, source@));
    }
    out
}

} // verus!
