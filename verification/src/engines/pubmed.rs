//! PubMed (NCBI E-utilities): ESearch gives the PMIDs, ESummary their
//! details. The application decodes `esearchresult.idlist` into the ids and,
//! for each id, `result.<id>` into a [`PubMedRecord`] (`None` when absent).
use vstd::prelude::*;

use crate::engines::common::{clip, clip_spec, query_encoded, query_url_n};
use crate::engines::entries::{
    entries_view, opt_entry_view, rank_entries, ranked_entries, Entry, EntryView,
};
use crate::engines::EngineError;
use crate::models::{meta_view, opt_view, results_view, Category, EngineMeta, ResultView, SearchResult};
use crate::text::{
    chars_to_string, decimal, join, owned, push_joined, push_str, slice_if_long,
    slice_if_long_str, cut_fails, str_chars, str_eq, strings_view,
};

verus! {

/// The fields of one ESummary record (each `None` when missing or not a
/// string).
#[derive(Debug, Clone)]
pub struct PubMedRecord {
    pub title: Option<String>,
    pub fulljournalname: Option<String>,
    pub pubdate: Option<String>,
}

/// Plain view of a [`PubMedRecord`].
pub ghost struct PubMedView {
    pub title: Option<Seq<char>>,
    pub fulljournalname: Option<Seq<char>>,
    pub pubdate: Option<Seq<char>>,
}

impl View for PubMedRecord {
    type V = PubMedView;

    open spec fn view(&self) -> PubMedView {
        PubMedView {
            title: opt_view(self.title),
            fulljournalname: opt_view(self.fulljournalname),
            pubdate: opt_view(self.pubdate),
        }
    }
}

pub open spec fn opt_record_view(o: Option<PubMedRecord>) -> Option<PubMedView> {
    match o {
        Some(r) => Some(r@),
        None => None,
    }
}

pub open spec fn records_view(v: Seq<Option<PubMedRecord>>) -> Seq<Option<PubMedView>> {
    v.map_values(|o: Option<PubMedRecord>| opt_record_view(o))
}

pub open spec fn or_empty(o: Option<Seq<char>>) -> Seq<char> {
    match o {
        Some(s) => s,
        None => Seq::empty(),
    }
}

/// The article page of a PMID.
pub open spec fn article_url(pmid: Seq<char>) -> Seq<char> {
    "https://pubmed.ncbi.nlm.nih.gov/"@ + pmid + "/"@
}

/// "{journal} · {pubdate}", or the publication date alone.
pub open spec fn record_snippet(r: PubMedView) -> Seq<char> {
    let journal = or_empty(r.fulljournalname);
    let date = or_empty(r.pubdate);
    if journal.len() == 0 {
        date
    } else {
        journal + " · "@ + date
    }
}

pub struct PubMed;

impl PubMed {
    /// Engine metadata.
    pub fn meta(&self) -> (r: EngineMeta)
        ensures
            meta_view(r) == ("pubmed"@, "PubMed"@, Category::Academic, false),
    {
        EngineMeta::new("pubmed", "PubMed", Category::Academic, false)
    }

    pub open spec fn url_spec(query: Seq<char>, max: nat) -> Seq<char> {
        "https://eutils.ncbi.nlm.nih.gov/entrez/eutils/esearch.fcgi?db=pubmed&term="@
            + query_encoded(query) + "&retmax="@ + decimal(
            if max < 50 {
                max
            } else {
                50
            },
        ) + "&retmode=json"@
    }

    /// The ESearch request URL, asking for at most 50 ids.
    pub fn search_url(&self, query: &str, max: usize) -> (r: String)
        ensures
            r@ == Self::url_spec(query@, max as nat),
    {
        let n: usize = if max < 50 {
            max
        } else {
            50
        };
        query_url_n(
            "https://eutils.ncbi.nlm.nih.gov/entrez/eutils/esearch.fcgi?db=pubmed&term=",
            query,
            "&retmax=",
            n as u64,
            "&retmode=json",
        )
    }

    /// The ESummary request URL for the ids ESearch found; the error when
    /// it found none.
    pub fn summary_url(&self, ids: &Vec<String>) -> (r: Result<String, EngineError>)
        ensures
            ids@.len() == 0 ==> (r matches Err(EngineError::Parse(m)) && m@ == "PubMed 无结果"@),
            ids@.len() > 0 ==> (r matches Ok(u) && u@
                == "https://eutils.ncbi.nlm.nih.gov/entrez/eutils/esummary.fcgi?db=pubmed&id="@
                + join(strings_view(ids@), ","@) + "&retmode=json"@),
    {
        if ids.len() == 0 {
            return Err(EngineError::Parse(owned("PubMed 无结果")));
        }
        let mut v = str_chars("https://eutils.ncbi.nlm.nih.gov/entrez/eutils/esummary.fcgi?db=pubmed&id=");
        push_joined(&mut v, ids, ",");
        push_str(&mut v, "&retmode=json");
        Ok(chars_to_string(v.as_slice()))
    }

    /// The entry the record of a PMID makes (none without a record or a
    /// title).
    pub open spec fn entry_spec(pmid: Seq<char>, o: Option<PubMedView>) -> Option<EntryView> {
        match o {
            Some(r) => match r.title {
                Some(title) => Some(
                    (
                        clip_spec(title, 200),
                        article_url(pmid),
                        clip_spec(record_snippet(r), 300),
                        slice_if_long(or_empty(r.pubdate), 4, 0, 4),
                    ),
                ),
                None => None,
            },
            None => None,
        }
    }

    /// The year of this record cannot be cut at its fourth byte; such a
    /// record is skipped.
    pub open spec fn bad_spec(o: Option<PubMedView>) -> bool {
        match o {
            Some(r) => r.title is Some && cut_fails(or_empty(r.pubdate), 4, 0, 4),
            None => false,
        }
    }

    /// The entry that is kept: none when its year cannot be cut at a
    /// character boundary.
    pub open spec fn kept_spec(pmid: Seq<char>, o: Option<PubMedView>) -> Option<EntryView> {
        if Self::bad_spec(o) {
            None
        } else {
            Self::entry_spec(pmid, o)
        }
    }

    pub open spec fn entries_of(ids: Seq<Seq<char>>, rs: Seq<Option<PubMedView>>) -> Seq<
        Option<EntryView>,
    > {
        Seq::new(ids.len(), |i: int| Self::kept_spec(ids[i], rs[i]))
    }

    fn entry_of(pmid: &str, o: &Option<PubMedRecord>) -> (e: (Option<Entry>, bool))
        ensures
            opt_entry_view(e.0) == Self::entry_spec(pmid@, opt_record_view(*o)),
            e.1 == Self::bad_spec(opt_record_view(*o)),
    {
        proof {
            reveal_strlit("");
            assert(""@ =~= Seq::<char>::empty());
        }
        let r = match o {
            Some(r) => r,
            None => return (None, false),
        };
        let title = match &r.title {
            Some(t) => t,
            None => return (None, false),
        };
        let journal: &str = match &r.fulljournalname {
            Some(j) => j.as_str(),
            None => "",
        };
        let date: &str = match &r.pubdate {
            Some(d) => d.as_str(),
            None => "",
        };
        let mut u = str_chars("https://pubmed.ncbi.nlm.nih.gov/");
        push_str(&mut u, pmid);
        push_str(&mut u, "/");
        let url = chars_to_string(u.as_slice());
        let snippet = if journal.is_empty() {
            owned(date)
        } else {
            let mut v = str_chars(journal);
            push_str(&mut v, " · ");
            push_str(&mut v, date);
            chars_to_string(v.as_slice())
        };
        let (published, bad) = slice_if_long_str(date, 4, 0, 4);
        (
            Some(
                Entry {
                    title: clip(title.as_str(), 200),
                    url,
                    snippet: clip(snippet.as_str(), 300),
                    published,
                },
            ),
            bad,
        )
    }

    /// Each result is made from the summary record of one article id
    /// `ids[k]`, ranked by its position `i` among the results: the record's
    /// title, the article's PubMed page `https://pubmed.ncbi.nlm.nih.gov/{id}/`,
    /// and its journal and date as snippet.
    pub proof fn law_results_from_records(ids: Seq<Seq<char>>, recs: Seq<Option<PubMedView>>, max: nat)

        requires
            ids.len() == recs.len(),
        ensures
            crate::engines::entries::ranked_entries(Self::entries_of(ids, recs), max, "pubmed"@, false).len() <= max,
            forall|i: int|
                #![trigger crate::engines::entries::ranked_entries(Self::entries_of(ids, recs), max, "pubmed"@, false)[i]]
                0 <= i < crate::engines::entries::ranked_entries(Self::entries_of(ids, recs), max, "pubmed"@, false).len() ==> {
                    let rs = crate::engines::entries::ranked_entries(Self::entries_of(ids, recs), max, "pubmed"@, false);
                    &&& rs[i].source == "pubmed"@
                    &&& exists|k: int| #![trigger ids[k]] 0 <= k < ids.len() && (match recs[k] {
                    Some(rec) => match rec.title {
                        Some(t) => rs[i].title == crate::models::clean_title_spec(crate::engines::common::clip_spec(t, 200))
                            && rs[i].url == "https://pubmed.ncbi.nlm.nih.gov/"@ + ids[k] + "/"@ && rs[i].rank == i
                            && rs[i].snippet == crate::engines::common::clip_spec(record_snippet(rec), 300),
                        None => false,
                    },
                    None => false,
                })
                },
    {
        let es = Self::entries_of(ids, recs);
        crate::engines::entries::lemma_ranked_entries_from(es, max, "pubmed"@, false);
        let rs = crate::engines::entries::ranked_entries(es, max, "pubmed"@, false);
        assert forall|i: int| #![trigger rs[i]] 0 <= i < rs.len() implies rs[i].source == "pubmed"@
            && exists|k: int| #![trigger ids[k]] 0 <= k < ids.len() && (match recs[k] {
                    Some(rec) => match rec.title {
                        Some(t) => rs[i].title == crate::models::clean_title_spec(crate::engines::common::clip_spec(t, 200))
                            && rs[i].url == "https://pubmed.ncbi.nlm.nih.gov/"@ + ids[k] + "/"@ && rs[i].rank == i
                            && rs[i].snippet == crate::engines::common::clip_spec(record_snippet(rec), 300),
                        None => false,
                    },
                    None => false,
                }) by {
            let k = choose|k: int|
                #![trigger es[k]]
                0 <= k < es.len() && (es[k] matches Some(e) && rs[i] == crate::engines::entries::entry_result(
                    e,
                    "pubmed"@,
                    if false {
                        k as nat
                    } else {
                        i as nat
                    },
                ));
            assert(0 <= k < ids.len());
        }
    }

    /// No usable record is lost: when `max` is at least the number of
    /// records, every id whose summary record has a title (and no date to cut) yields a result made from it.
    pub proof fn law_records_give_results(ids: Seq<Seq<char>>, recs: Seq<Option<PubMedView>>, max: nat)
        requires
            ids.len() == recs.len(),
            max >= ids.len(),
        ensures
            ({
                let rs = crate::engines::entries::ranked_entries(Self::entries_of(ids, recs), max, "pubmed"@, false);
                forall|k: int|
                    #![trigger recs[k]]
                    0 <= k < ids.len() ==> match recs[k] {
                        Some(rec) => match (rec.title, rec.pubdate) {
                            (Some(t), None) => exists|i: int| #![trigger rs[i]] 0 <= i < rs.len() && rs[i].title
                                == crate::models::clean_title_spec(crate::engines::common::clip_spec(t, 200))
                                && rs[i].url == "https://pubmed.ncbi.nlm.nih.gov/"@ + ids[k] + "/"@,
                            _ => true,
                        },
                        None => true,
                    }
            }),
    {
        let es = Self::entries_of(ids, recs);
        crate::engines::entries::lemma_entries_to_results(es, max, "pubmed"@, false);
        let rs = crate::engines::entries::ranked_entries(es, max, "pubmed"@, false);
        assert forall|k: int| #![trigger recs[k]] 0 <= k < ids.len() implies match recs[k] {
            Some(rec) => match (rec.title, rec.pubdate) {
                (Some(t), None) => exists|i: int| #![trigger rs[i]] 0 <= i < rs.len() && rs[i].title
                    == crate::models::clean_title_spec(crate::engines::common::clip_spec(t, 200))
                    && rs[i].url == "https://pubmed.ncbi.nlm.nih.gov/"@ + ids[k] + "/"@,
                _ => true,
            },
            None => true,
        } by {
            assert(es[k] == Self::kept_spec(ids[k], recs[k]));
            assert(crate::text::byte_width(Seq::<char>::empty()) == 0);
            match recs[k] {
                Some(rec) => match (rec.title, rec.pubdate) {
                    (Some(t), None) => {
                        assert(!Self::bad_spec(recs[k]));
                        assert(es[k] is Some);
                        let e = es[k]->0;
                        assert(e.0 == crate::engines::common::clip_spec(t, 200));
                        assert(e.1 == article_url(ids[k]));
                    },
                    _ => {},
                },
                None => {},
            }
        }
    }

    /// The results of the records, in the order of the ids, ranked by
    /// position, at most `max`, skipping a record whose year cannot be cut.
    pub fn results(&self, ids: &Vec<String>, recs: &Vec<Option<PubMedRecord>>, max: usize) -> (r: Vec<SearchResult>)
        requires
            ids@.len() == recs@.len(),
        ensures
            results_view(r@) == ranked_entries(
                Self::entries_of(strings_view(ids@), records_view(recs@)),
                max as nat,
                "pubmed"@,
                false,
            ),
    {
        let ghost iv = strings_view(ids@);
        let ghost rv = records_view(recs@);
        let mut es: Vec<Option<Entry>> = Vec::new();
        let mut i: usize = 0;
        while i < ids.len()
            invariant
                i <= ids@.len(),
                ids@.len() == recs@.len(),
                iv == strings_view(ids@),
                rv == records_view(recs@),
                es@.len() == i,
                entries_view(es@) == Self::entries_of(iv.take(i as int), rv.take(i as int)),
            decreases ids.len() - i,
        {
            let (e, bad) = Self::entry_of(ids[i].as_str(), &recs[i]);
            let ghost prev = es@;
            es.push(if bad {
                None
            } else {
                e
            });
            assert forall|k: int| 0 <= k < i + 1 implies #[trigger] entries_view(es@)[k]
                == Self::entries_of(iv.take(i + 1), rv.take(i + 1))[k] by {
                if k < i {
                    assert(es@[k] == prev[k]);
                    assert(entries_view(prev)[k] == Self::entries_of(
                        iv.take(i as int),
                        rv.take(i as int),
                    )[k]);
                }
            }
            assert(entries_view(es@) =~= Self::entries_of(iv.take(i + 1), rv.take(i + 1)));
            i += 1;
        }
        assert(iv.take(ids@.len() as int) =~= iv);
        assert(rv.take(ids@.len() as int) =~= rv);
        rank_entries(es, "pubmed", max, false)
    }

    /// The results, or this engine's error when none could be read.
    pub fn finish(&self, out: Vec<SearchResult>) -> (r: Result<Vec<SearchResult>, EngineError>)
        ensures
            out@.len() > 0 ==> r == Ok::<Vec<SearchResult>, EngineError>(out),
            out@.len() == 0 ==> (r matches Err(EngineError::Parse(m)) && m@ == "PubMed 详情解析失败"@),
    {
        if out.len() == 0 {
            return Err(EngineError::Parse(owned("PubMed 详情解析失败")));
        }
        Ok(out)
    }
}

} // verus!
