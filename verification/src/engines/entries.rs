//! Candidate entries of a response and how they become ranked results.
//!
//! An engine reads each element of a response (a result block, a feed item, a
//! JSON record) into an optional [`Entry`]: `None` for one it skips. The
//! kept entries become results, capped at `max`; the rank is either the
//! position among the kept entries or the element's own index.
use vstd::prelude::*;

use crate::models::{clean_title, clean_title_spec, results_view, ResultView, SearchResult, opt_view};
use crate::text::owned;

verus! {

/// A result before ranking.
#[derive(Debug)]
pub struct Entry {
    pub title: String,
    pub url: String,
    pub snippet: String,
    pub published: Option<String>,
}

/// Plain view of an [`Entry`]: (title, url, snippet, published).
pub type EntryView = (Seq<char>, Seq<char>, Seq<char>, Option<Seq<char>>);

pub open spec fn entry_view(e: Entry) -> EntryView {
    (e.title@, e.url@, e.snippet@, opt_view(e.published))
}

pub open spec fn opt_entry_view(o: Option<Entry>) -> Option<EntryView> {
    match o {
        Some(e) => Some(entry_view(e)),
        None => None,
    }
}

pub open spec fn entries_view(v: Seq<Option<Entry>>) -> Seq<Option<EntryView>> {
    v.map_values(|o: Option<Entry>| opt_entry_view(o))
}

/// The kept entries with their index in the list, in order.
pub open spec fn kept(es: Seq<Option<EntryView>>) -> Seq<(nat, EntryView)>
    decreases es.len(),
{
    if es.len() == 0 {
        seq![]
    } else {
        let prev = kept(es.drop_last());
        match es.last() {
            Some(e) => prev.push(((es.len() - 1) as nat, e)),
            None => prev,
        }
    }
}

proof fn lemma_kept_from(es: Seq<Option<EntryView>>)
    ensures
        forall|j: int|
            #![trigger kept(es)[j]]
            0 <= j < kept(es).len() ==> kept(es)[j].0 < es.len() && es[kept(es)[j].0 as int] == Some(
                kept(es)[j].1,
            ),
    decreases es.len(),
{
    if es.len() > 0 {
        let p = es.drop_last();
        lemma_kept_from(p);
        assert forall|j: int|
            #![trigger kept(es)[j]]
            0 <= j < kept(es).len() implies kept(es)[j].0 < es.len() && es[kept(es)[j].0 as int]
                == Some(kept(es)[j].1) by {
            if j < kept(p).len() {
                assert(kept(es)[j] == kept(p)[j]);
                assert(es[kept(p)[j].0 as int] == p[kept(p)[j].0 as int]);
            }
        }
    }
}

/// Each ranked result is the result of one entry `es[k]` that is kept,
/// ranked `k` when `by_index`, else by its position; at most `max`.
pub proof fn lemma_ranked_entries_from(
    es: Seq<Option<EntryView>>,
    max: nat,
    source: Seq<char>,
    by_index: bool,
)
    ensures
        ranked_entries(es, max, source, by_index).len() <= max,
        forall|i: int|
            #![trigger ranked_entries(es, max, source, by_index)[i]]
            0 <= i < ranked_entries(es, max, source, by_index).len() ==> exists|k: int|
                #![trigger es[k]]
                0 <= k < es.len() && (es[k] matches Some(e) && ranked_entries(
                    es,
                    max,
                    source,
                    by_index,
                )[i] == entry_result(
                    e,
                    source,
                    if by_index {
                        k as nat
                    } else {
                        i as nat
                    },
                )),
{
    lemma_kept_from(es);
    let rs = ranked_entries(es, max, source, by_index);
    assert forall|i: int| #![trigger rs[i]] 0 <= i < rs.len() implies exists|k: int|
        #![trigger es[k]]
        0 <= k < es.len() && (es[k] matches Some(e) && rs[i] == entry_result(
            e,
            source,
            if by_index {
                k as nat
            } else {
                i as nat
            },
        )) by {
        let k = kept(es)[i].0 as int;
        assert(es[k] == Some(kept(es)[i].1));
    }
}

proof fn lemma_kept_has(es: Seq<Option<EntryView>>)
    ensures
        kept(es).len() <= es.len(),
        forall|k: int|
            #![trigger es[k]]
            0 <= k < es.len() && es[k] is Some ==> exists|j: int|
                0 <= j < kept(es).len() && #[trigger] kept(es)[j] == (k as nat, es[k]->0),
    decreases es.len(),
{
    if es.len() > 0 {
        let p = es.drop_last();
        lemma_kept_has(p);
        let kp = kept(p);
        let ke = kept(es);
        assert forall|k: int|
            #![trigger es[k]]
            0 <= k < es.len() && es[k] is Some implies exists|j: int|
                0 <= j < ke.len() && #[trigger] ke[j] == (k as nat, es[k]->0) by {
            if k < p.len() {
                assert(es[k] == p[k]);
                let j = choose|j: int| 0 <= j < kp.len() && #[trigger] kp[j] == (k as nat, p[k]->0);
                assert(ke[j] == kp[j]);
            } else {
                assert(ke[ke.len() - 1] == (k as nat, es[k]->0));
            }
        }
    }
}

/// When `max` is at least the number of entries, every kept entry becomes a
/// result (ranked `k` when `by_index`, else by its position).
pub proof fn lemma_entries_to_results(
    es: Seq<Option<EntryView>>,
    max: nat,
    source: Seq<char>,
    by_index: bool,
)
    requires
        max >= es.len(),
    ensures
        forall|k: int|
            #![trigger es[k]]
            0 <= k < es.len() && es[k] is Some ==> exists|i: int|
                #![trigger ranked_entries(es, max, source, by_index)[i]]
                0 <= i < ranked_entries(es, max, source, by_index).len()
                    && ranked_entries(es, max, source, by_index)[i] == entry_result(
                    es[k]->0,
                    source,
                    if by_index {
                        k as nat
                    } else {
                        i as nat
                    },
                ),
{
    lemma_kept_has(es);
    let rs = ranked_entries(es, max, source, by_index);
    assert forall|k: int|
        #![trigger es[k]]
        0 <= k < es.len() && es[k] is Some implies exists|i: int|
            #![trigger rs[i]]
            0 <= i < rs.len() && rs[i] == entry_result(
                es[k]->0,
                source,
                if by_index {
                    k as nat
                } else {
                    i as nat
                },
            ) by {
        let j = choose|j: int| 0 <= j < kept(es).len() && #[trigger] kept(es)[j] == (k as nat, es[k]->0);
        assert(rs[j] == entry_result(kept(es)[j].1, source, if by_index { kept(es)[j].0 } else { j as nat }));
    }
}

/// The result an entry makes (its title cleaned as [`SearchResult::new`] does).
pub open spec fn entry_result(e: EntryView, source: Seq<char>, rank: nat) -> ResultView {
    ResultView {
        title: clean_title_spec(e.0),
        url: e.1,
        snippet: e.2,
        source,
        rank,
        published: e.3,
    }
}

/// The first `max` kept entries as results of `source`; ranked by their index
/// in the list when `by_index`, else by their position among the kept ones.
pub open spec fn ranked_entries(
    es: Seq<Option<EntryView>>,
    max: nat,
    source: Seq<char>,
    by_index: bool,
) -> Seq<ResultView> {
    let k = kept(es);
    let n = if k.len() < max {
        k.len()
    } else {
        max
    };
    Seq::new(
        n,
        |i: int|
            entry_result(
                k[i].1,
                source,
                if by_index {
                    k[i].0
                } else {
                    i as nat
                },
            ),
    )
}

pub proof fn lemma_kept_prefix(es: Seq<Option<EntryView>>, i: int)
    requires
        0 <= i <= es.len(),
    ensures
        kept(es.take(i)).len() <= kept(es).len(),
        kept(es.take(i)) == kept(es).take(kept(es.take(i)).len() as int),
    decreases es.len() - i,
{
    if i < es.len() {
        lemma_kept_prefix(es, i + 1);
        assert(es.take(i + 1).drop_last() =~= es.take(i));
        let a = kept(es.take(i));
        let b = kept(es.take(i + 1));
        let c = kept(es);
        assert(b.take(a.len() as int) =~= a);
        assert(c.take(b.len() as int).take(a.len() as int) =~= c.take(a.len() as int));
    } else {
        assert(es.take(i) =~= es);
        let c = kept(es);
        assert(c.take(c.len() as int) =~= c);
    }
}

proof fn lemma_kept_index_bound(es: Seq<Option<EntryView>>)
    ensures
        forall|k: int| 0 <= k < kept(es).len() ==> #[trigger] kept(es)[k].0 < es.len(),
    decreases es.len(),
{
    if es.len() > 0 {
        lemma_kept_index_bound(es.drop_last());
        let prev = kept(es.drop_last());
        assert forall|k: int| 0 <= k < kept(es).len() implies #[trigger] kept(es)[k].0 < es.len() by {
            if k < prev.len() {
                assert(kept(es)[k] == prev[k]);
            }
        }
    }
}


/// The result of `source` an entry makes, at `rank`.
pub fn entry_to_result(e: Entry, source: &str, rank: usize) -> (r: SearchResult)
    ensures
        r@ == entry_result(entry_view(e), source@, rank as nat),
{
    SearchResult {
        title: clean_title(e.title.as_str()),
        url: e.url,
        snippet: e.snippet,
        source: owned(source),
        rank,
        published: e.published,
    }
}

/// The first `max` kept entries as results of `source` (see [`ranked_entries`]).
pub fn rank_entries(es: Vec<Option<Entry>>, source: &str, max: usize, by_index: bool) -> (r: Vec<
    SearchResult,
>)
    ensures
        results_view(r@) == ranked_entries(entries_view(es@), max as nat, source@, by_index),
{
    let ghost ev = entries_view(es@);
    let ghost all = kept(ev);
    let mut es = es;
    // Taken in order: reverse once so that `pop` yields the first element.
    let n = es.len();
    let mut rev: Vec<Option<Entry>> = Vec::new();
    while es.len() > 0
        invariant
            es@.len() + rev@.len() == n,
            n == ev.len(),
            forall|j: int| 0 <= j < es@.len() ==> #[trigger] opt_entry_view(es@[j]) == ev[j],
            forall|j: int|
                0 <= j < rev@.len() ==> #[trigger] opt_entry_view(rev@[j]) == ev[n - 1 - j],
        decreases es.len(),
    {
        let x = es.pop().unwrap();
        rev.push(x);
    }
    let mut out: Vec<SearchResult> = Vec::new();
    let mut i: usize = 0;
    proof {
        lemma_kept_index_bound(ev);
    }
    while i < n
        invariant
            i <= n,
            n == ev.len(),
            rev@.len() == n - i,
            forall|j: int|
                0 <= j < rev@.len() ==> #[trigger] opt_entry_view(rev@[j]) == ev[n - 1 - j],
            all == kept(ev),
            forall|k: int| 0 <= k < all.len() ==> #[trigger] all[k].0 < ev.len(),
            out@.len() <= max,
            out@.len() == kept(ev.take(i as int)).len(),
            results_view(out@) == ranked_entries(ev.take(i as int), max as nat, source@, by_index),
        ensures
            i <= n,
            out@.len() <= max,
            out@.len() == kept(ev.take(i as int)).len(),
            results_view(out@) == ranked_entries(ev.take(i as int), max as nat, source@, by_index),
            i == n || out@.len() >= max,
        decreases n - i,
    {
        if out.len() >= max {
            break;
        }
        let ghost before = kept(ev.take(i as int));
        assert(ev.take(i + 1).drop_last() =~= ev.take(i as int));
        let x = rev.pop().unwrap();
        assert(opt_entry_view(x) == ev[i as int]);
        assert(ev.take(i + 1).last() == ev[i as int]);
        match x {
            Some(e) => {
                let rank: usize = if by_index {
                    i
                } else {
                    out.len()
                };
                let ghost ek = entry_view(e);
                let r = entry_to_result(e, source, rank);
                let ghost pos = out@.len();
                out.push(r);
                let ghost after = kept(ev.take(i + 1));
                assert(after == before.push((i as nat, ek)));
                assert forall|k: int| 0 <= k < out@.len() implies #[trigger] results_view(out@)[k]
                    == ranked_entries(ev.take(i + 1), max as nat, source@, by_index)[k] by {
                    if k < pos {
                        assert(results_view(out@)[k] == out@[k]@);
                        assert(ranked_entries(ev.take(i as int), max as nat, source@, by_index)[k]
                            == results_view(out@)[k]);
                        assert(after[k] == before[k]);
                    }
                }
                assert(results_view(out@) =~= ranked_entries(
                    ev.take(i + 1),
                    max as nat,
                    source@,
                    by_index,
                ));
            },
            None => {},
        }
        i += 1;
    }
    proof {
        lemma_kept_prefix(ev, i as int);
        let done = kept(ev.take(i as int));
        if i == n {
            assert(ev.take(i as int) =~= ev);
        }
        assert forall|k: int| 0 <= k < done.len() implies #[trigger] done[k] == all[k] by {
            assert(done[k] == all.take(done.len() as int)[k]);
        }
        assert(ranked_entries(ev.take(i as int), max as nat, source@, by_index) =~= ranked_entries(
            ev,
            max as nat,
            source@,
            by_index,
        ));
    }
    out
}

} // verus!
