//! Wikipedia (MediaWiki Action API, Chinese site). The search snippets are
//! HTML with highlight tags, which are stripped. The application decodes
//! `query.search` into [`WikiRecord`]s.
use vstd::prelude::*;

use crate::engines::common::{clip, clip_spec, encode_query_pct, query_encoded, query_url_n, strip_html, strip_html_spec};
use crate::engines::entries::{
    entries_view, opt_entry_view, rank_entries, ranked_entries, Entry, EntryView,
};
use crate::engines::EngineError;
use crate::models::{meta_view, opt_view, results_view, Category, EngineMeta, ResultView, SearchResult};
use crate::text::{
    chars_to_string, decimal, owned, push_str, slice_if_long, slice_if_long_str, cut_fails,
    str_chars,
};

verus! {

/// The fields of one hit of a search response (each `None` when missing or
/// not a string).
#[derive(Debug, Clone)]
pub struct WikiRecord {
    pub title: Option<String>,
    pub snippet: Option<String>,
    pub timestamp: Option<String>,
}

/// Plain view of a [`WikiRecord`]: (title, snippet, timestamp).
pub type WikiView = (Option<Seq<char>>, Option<Seq<char>>, Option<Seq<char>>);

pub open spec fn wiki_view(r: WikiRecord) -> WikiView {
    (opt_view(r.title), opt_view(r.snippet), opt_view(r.timestamp))
}

pub open spec fn wikis_view(v: Seq<WikiRecord>) -> Seq<WikiView> {
    v.map_values(|r: WikiRecord| wiki_view(r))
}

/// Spaces replaced by underscores (`str::replace(' ', "_")`).
pub open spec fn underscored(s: Seq<char>) -> Seq<char> {
    s.map_values(
        |c: char|
            if c == ' ' {
                '_'
            } else {
                c
            },
    )
}

/// The article URL of a title.
pub open spec fn page_url(title: Seq<char>) -> Seq<char> {
    "https://zh.wikipedia.org/wiki/"@ + query_encoded(underscored(title))
}

/// Executable [`page_url`].
pub fn page_url_of(title: &str) -> (r: String)
    ensures
        r@ == page_url(title@),
{
    let v = str_chars(title);
    let mut u: Vec<char> = Vec::new();
    let mut i: usize = 0;
    while i < v.len()
        invariant
            i <= v@.len(),
            u@ == underscored(v@.take(i as int)),
        decreases v.len() - i,
    {
        let c = v[i];
        u.push(
            if c == ' ' {
                '_'
            } else {
                c
            },
        );
        i += 1;
        assert(u@ =~= underscored(v@.take(i as int)));
    }
    assert(v@.take(v@.len() as int) =~= v@);
    let t = chars_to_string(u.as_slice());
    let mut out = str_chars("https://zh.wikipedia.org/wiki/");
    push_str(&mut out, encode_query_pct(t.as_str()).as_str());
    chars_to_string(out.as_slice())
}

pub struct Wikipedia;

impl Wikipedia {
    /// Engine metadata.
    pub fn meta(&self) -> (r: EngineMeta)
        ensures
            meta_view(r) == ("wikipedia"@, "维基百科"@, Category::Academic, false),
    {
        EngineMeta::new("wikipedia", "维基百科", Category::Academic, false)
    }

    pub open spec fn url_spec(query: Seq<char>, max: nat) -> Seq<char> {
        "https://zh.wikipedia.org/w/api.php?action=query&list=search&srsearch="@ + query_encoded(
            query,
        ) + "&srlimit="@ + decimal(
            if max < 50 {
                max
            } else {
                50
            },
        ) + "&format=json&utf8=1"@
    }

    /// The API request URL, asking for at most 50 hits.
    pub fn search_url(&self, query: &str, max: usize) -> (r: String)
        ensures
            r@ == Self::url_spec(query@, max as nat),
    {
        let n: usize = if max < 50 {
            max
        } else {
            50
        };
        query_url_n(
            "https://zh.wikipedia.org/w/api.php?action=query&list=search&srsearch=",
            query,
            "&srlimit=",
            n as u64,
            "&format=json&utf8=1",
        )
    }

    /// The entry a hit makes (none without a title).
    pub open spec fn entry_spec(r: WikiView) -> Option<EntryView> {
        match r.0 {
            Some(title) => Some(
                (
                    title,
                    page_url(title),
                    clip_spec(
                        match r.1 {
                            Some(s) => strip_html_spec(s),
                            None => Seq::empty(),
                        },
                        300,
                    ),
                    match r.2 {
                        Some(ts) => slice_if_long(ts, 10, 0, 10),
                        None => None,
                    },
                ),
            ),
            None => None,
        }
    }

    /// The date of this hit cannot be cut at its tenth byte; such a hit is
    /// skipped.
    pub open spec fn bad_spec(r: WikiView) -> bool {
        match r.2 {
            Some(ts) => r.0 is Some && cut_fails(ts, 10, 0, 10),
            None => false,
        }
    }

    /// The entry that is kept: none when its date cannot be cut where the
    /// result's date is taken.
    pub open spec fn kept_spec(r: WikiView) -> Option<EntryView> {
        if Self::bad_spec(r) {
            None
        } else {
            Self::entry_spec(r)
        }
    }

    pub open spec fn entries_of(rs: Seq<WikiView>) -> Seq<Option<EntryView>> {
        rs.map_values(|r: WikiView| Self::kept_spec(r))
    }

    fn entry_of(r: &WikiRecord) -> (e: (Option<Entry>, bool))
        ensures
            opt_entry_view(e.0) == Self::entry_spec(wiki_view(*r)),
            e.1 == Self::bad_spec(wiki_view(*r)),
    {
        proof {
            reveal_strlit("");
            assert(""@ =~= Seq::<char>::empty());
        }
        let title = match &r.title {
            Some(t) => t,
            None => return (None, false),
        };
        let (published, bad) = match &r.timestamp {
            Some(ts) => slice_if_long_str(ts.as_str(), 10, 0, 10),
            None => (None, false),
        };
        let stripped = match &r.snippet {
            Some(s) => strip_html(s.as_str()),
            None => owned(""),
        };
        let snippet = clip(stripped.as_str(), 300);
        let url = page_url_of(title.as_str());
        (Some(Entry { title: title.clone(), url, snippet, published }), bad)
    }

    /// Each result is made from one search record of the response, ranked
    /// by its index `k` in the list: the page title, the page's address
    /// built from that title, and the plain text of the record's snippet.
    pub proof fn law_results_from_records(items: Seq<WikiView>, max: nat)

        ensures
            crate::engines::entries::ranked_entries(Self::entries_of(items), max, "wikipedia"@, true).len() <= max,
            forall|i: int|
                #![trigger crate::engines::entries::ranked_entries(Self::entries_of(items), max, "wikipedia"@, true)[i]]
                0 <= i < crate::engines::entries::ranked_entries(Self::entries_of(items), max, "wikipedia"@, true).len() ==> {
                    let rs = crate::engines::entries::ranked_entries(Self::entries_of(items), max, "wikipedia"@, true);
                    &&& rs[i].source == "wikipedia"@
                    &&& exists|k: int| #![trigger items[k]] 0 <= k < items.len() && (match items[k].0 {
                    Some(t) => rs[i].title == crate::models::clean_title_spec(t) && rs[i].url == page_url(t) && rs[i].rank == k
                        && rs[i].snippet == crate::engines::common::clip_spec(match items[k].1 {
                            Some(s) => strip_html_spec(s),
                            None => Seq::empty(),
                        }, 300),
                    None => false,
                })
                },
    {
        let es = Self::entries_of(items);
        crate::engines::entries::lemma_ranked_entries_from(es, max, "wikipedia"@, true);
        let rs = crate::engines::entries::ranked_entries(es, max, "wikipedia"@, true);
        assert forall|i: int| #![trigger rs[i]] 0 <= i < rs.len() implies rs[i].source == "wikipedia"@
            && exists|k: int| #![trigger items[k]] 0 <= k < items.len() && (match items[k].0 {
                    Some(t) => rs[i].title == crate::models::clean_title_spec(t) && rs[i].url == page_url(t) && rs[i].rank == k
                        && rs[i].snippet == crate::engines::common::clip_spec(match items[k].1 {
                            Some(s) => strip_html_spec(s),
                            None => Seq::empty(),
                        }, 300),
                    None => false,
                }) by {
            let k = choose|k: int|
                #![trigger es[k]]
                0 <= k < es.len() && (es[k] matches Some(e) && rs[i] == crate::engines::entries::entry_result(
                    e,
                    "wikipedia"@,
                    if true {
                        k as nat
                    } else {
                        i as nat
                    },
                ));
            assert(0 <= k < items.len());
        }
    }

    /// No usable record is lost: when `max` is at least the number of
    /// records, every record with a title (and no timestamp to cut) yields a result made from it.
    pub proof fn law_records_give_results(items: Seq<WikiView>, max: nat)
        requires
            max >= items.len(),
        ensures
            forall|k: int|
                #![trigger items[k]]
                0 <= k < items.len() ==> match (items[k].0, items[k].2) {
                    (Some(t), None) => exists|i: int| #![trigger crate::engines::entries::ranked_entries(Self::entries_of(items), max, "wikipedia"@, true)[i]] 0 <= i < crate::engines::entries::ranked_entries(Self::entries_of(items), max, "wikipedia"@, true).len() && crate::engines::entries::ranked_entries(Self::entries_of(items), max, "wikipedia"@, true)[i].title == crate::models::clean_title_spec(t)
                        && crate::engines::entries::ranked_entries(Self::entries_of(items), max, "wikipedia"@, true)[i].url == page_url(t) && crate::engines::entries::ranked_entries(Self::entries_of(items), max, "wikipedia"@, true)[i].rank == k,
                    _ => true,
                },
    {
        let es = Self::entries_of(items);
        crate::engines::entries::lemma_entries_to_results(es, max, "wikipedia"@, true);
        let rs = crate::engines::entries::ranked_entries(Self::entries_of(items), max, "wikipedia"@, true);
        assert forall|k: int| #![trigger items[k]] 0 <= k < items.len() implies match (items[k].0, items[k].2) {
                    (Some(t), None) => exists|i: int| #![trigger rs[i]] 0 <= i < rs.len() && rs[i].title == crate::models::clean_title_spec(t)
                        && rs[i].url == page_url(t) && rs[i].rank == k,
                    _ => true,
                } by {
            assert(es[k] == es[k]);
        }
    }

    /// The results of the hits of a response, ranked by their index in the
    /// list, at most `max`, skipping a hit whose date cannot be cut.
    pub fn results(&self, items: &Vec<WikiRecord>, max: usize) -> (r: Vec<SearchResult>)
        ensures
            results_view(r@) == ranked_entries(
                Self::entries_of(wikis_view(items@)),
                max as nat,
                "wikipedia"@,
                true,
            ),
    {
        let ghost rv = wikis_view(items@);
        let mut es: Vec<Option<Entry>> = Vec::new();
        let mut i: usize = 0;
        while i < items.len()
            invariant
                i <= items@.len(),
                rv == wikis_view(items@),
                es@.len() == i,
                entries_view(es@) == Self::entries_of(rv.take(i as int)),
            decreases items.len() - i,
        {
            let (e, bad) = Self::entry_of(&items[i]);
            let ghost prev = es@;
            es.push(if bad {
                None
            } else {
                e
            });
            assert forall|k: int| 0 <= k < i + 1 implies #[trigger] entries_view(es@)[k]
                == Self::entries_of(rv.take(i + 1))[k] by {
                if k < i {
                    assert(es@[k] == prev[k]);
                    assert(entries_view(prev)[k] == Self::entries_of(rv.take(i as int))[k]);
                }
            }
            assert(entries_view(es@) =~= Self::entries_of(rv.take(i + 1)));
            i += 1;
        }
        assert(rv.take(items@.len() as int) =~= rv);
        rank_entries(es, "wikipedia", max, true)
    }

    /// The results, or this engine's error when there are none.
    pub fn finish(&self, out: Vec<SearchResult>) -> (r: Result<Vec<SearchResult>, EngineError>)
        ensures
            out@.len() > 0 ==> r == Ok::<Vec<SearchResult>, EngineError>(out),
            out@.len() == 0 ==> (r matches Err(EngineError::Parse(m)) && m@ == "维基百科无结果"@),
    {
        if out.len() == 0 {
            return Err(EngineError::Parse(owned("维基百科无结果")));
        }
        Ok(out)
    }
}

} // verus!
