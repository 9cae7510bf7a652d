//! Aggregated search: the decisions around the concurrent engine runs.
//!
//! The application runs the selected engines concurrently (each with its own
//! timeout and one retry on network failures), then hands the results to
//! this module: cross-source merging of the same target URL, keyword hits
//! for scoring, the per-source report order, paging and the result cache
//! window. The relevance score itself is a floating-point formula computed
//! by the application from what these functions return.
use vstd::prelude::*;

use crate::config::{lookup, lookup_in, AppConfig, DEFAULT_WEIGHT_BITS};
use crate::engines::common::{encode_query_pct, normalize_spec, normalize_url, query_encoded, query_url, unredirect_spec, unredirect_url};
use crate::engines::EngineError;
use crate::models::{duplicate_results, results_view, EngineReport, ResultView, SearchResult, opt_view};
use crate::text::{
    chars_to_string, contains, find, first_match_from, is_ascii_alnum, join, lowercase, matches_at,
    push_joined, push_str, rfind, str_chars, str_contains, str_eq, strings_view, to_lowercase, trim,
    trim_chars, words,
};

verus! {

// ---- ordering of strings ----

/// `a` sorts before `b`: lexicographic by character code (the order `str`
/// comparison gives, UTF-8 preserving code point order).
pub open spec fn lex_lt(a: Seq<char>, b: Seq<char>) -> bool
    decreases a.len(),
{
    if a.len() == 0 {
        b.len() > 0
    } else if b.len() == 0 {
        false
    } else if a[0] != b[0] {
        (a[0] as u32) < (b[0] as u32)
    } else {
        lex_lt(a.drop_first(), b.drop_first())
    }
}

pub proof fn lemma_lex_irreflexive(a: Seq<char>)
    ensures
        !lex_lt(a, a),
    decreases a.len(),
{
    if a.len() > 0 {
        lemma_lex_irreflexive(a.drop_first());
    }
}

pub proof fn lemma_lex_trans(a: Seq<char>, b: Seq<char>, c: Seq<char>)
    requires
        lex_lt(a, b),
        lex_lt(b, c),
    ensures
        lex_lt(a, c),
    decreases a.len(),
{
    if a.len() > 0 && b.len() > 0 && c.len() > 0 && a[0] == b[0] && b[0] == c[0] {
        lemma_lex_trans(a.drop_first(), b.drop_first(), c.drop_first());
    }
}

pub proof fn lemma_lex_total(a: Seq<char>, b: Seq<char>)
    ensures
        a == b || lex_lt(a, b) || lex_lt(b, a),
    decreases a.len(),
{
    if a.len() == 0 && b.len() == 0 {
        assert(a =~= b);
    } else if a.len() > 0 && b.len() > 0 {
        if a[0] == b[0] {
            lemma_lex_total(a.drop_first(), b.drop_first());
            if a.drop_first() == b.drop_first() {
                assert(a =~= seq![a[0]] + a.drop_first());
                assert(b =~= seq![b[0]] + b.drop_first());
                assert(a =~= b);
            }
        } else {
            let ua = a[0] as u32;
            let ub = b[0] as u32;
            vstd::utf8::char_u32_cast(a[0], ua);
            vstd::utf8::char_u32_cast(b[0], ub);
            assert(ua != ub);
        }
    }
}

fn lex_less(a: &Vec<char>, b: &Vec<char>) -> (r: bool)
    ensures
        r == lex_lt(a@, b@),
{
    let mut i: usize = 0;
    assert(a@.skip(0) =~= a@);
    assert(b@.skip(0) =~= b@);
    while i < a.len() && i < b.len() && a[i] == b[i]
        invariant
            i <= a@.len(),
            i <= b@.len(),
            lex_lt(a@, b@) == lex_lt(a@.skip(i as int), b@.skip(i as int)),
        decreases a.len() - i,
    {
        assert(a@.skip(i as int).drop_first() =~= a@.skip(i + 1));
        assert(b@.skip(i as int).drop_first() =~= b@.skip(i + 1));
        i += 1;
    }
    if i == a.len() {
        i < b.len()
    } else if i == b.len() {
        false
    } else {
        assert(a@.skip(i as int)[0] == a@[i as int]);
        assert(b@.skip(i as int)[0] == b@[i as int]);
        (a[i] as u32) < (b[i] as u32)
    }
}

/// Strictly ascending.
pub open spec fn strictly_sorted(r: Seq<Seq<char>>) -> bool {
    forall|i: int, j: int| 0 <= i < j < r.len() ==> lex_lt(#[trigger] r[i], #[trigger] r[j])
}

/// `r` lists the distinct elements of `s` in ascending order.
pub open spec fn sorted_set_of(r: Seq<Seq<char>>, s: Seq<Seq<char>>) -> bool {
    &&& strictly_sorted(r)
    &&& forall|x: Seq<char>| #[trigger] r.contains(x) <==> s.contains(x)
}

/// Two ascending lists of the same distinct elements are equal.
pub proof fn lemma_sorted_set_unique(r1: Seq<Seq<char>>, r2: Seq<Seq<char>>)
    requires
        strictly_sorted(r1),
        strictly_sorted(r2),
        forall|x: Seq<char>|
            #![trigger r1.contains(x)]
            #![trigger r2.contains(x)]
            r1.contains(x) <==> r2.contains(x),
    ensures
        r1 == r2,
    decreases r1.len(),
{
    if r1.len() == 0 {
        if r2.len() > 0 {
            assert(r2.contains(r2[0]));
            assert(r1.contains(r2[0]));
        }
        assert(r1 =~= r2);
    } else {
        assert(r1.contains(r1[0]));
        assert(r2.len() > 0);
        assert(r2.contains(r2[0]));
        let k = choose|k: int| 0 <= k < r1.len() && #[trigger] r1[k] == r2[0];
        let m = choose|m: int| 0 <= m < r2.len() && #[trigger] r2[m] == r1[0];
        if k > 0 && m > 0 {
            assert(lex_lt(r1[0], r1[k]));
            assert(lex_lt(r2[0], r2[m]));
            lemma_lex_trans(r1[0], r2[0], r1[0]);
            lemma_lex_irreflexive(r1[0]);
        } else if k > 0 {
            assert(r1[0] == r2[0]);
        }
        assert(r1[0] == r2[0]);
        let t1 = r1.drop_first();
        let t2 = r2.drop_first();
        assert forall|i: int, j: int| 0 <= i < j < t1.len() implies lex_lt(#[trigger] t1[i], #[trigger] t1[j]) by {
            assert(t1[i] == r1[i + 1] && t1[j] == r1[j + 1]);
        }
        assert forall|i: int, j: int| 0 <= i < j < t2.len() implies lex_lt(#[trigger] t2[i], #[trigger] t2[j]) by {
            assert(t2[i] == r2[i + 1] && t2[j] == r2[j + 1]);
        }
        assert forall|x: Seq<char>| #![trigger t1.contains(x)] #![trigger t2.contains(x)] t1.contains(x) <==> t2.contains(x) by {
            if t1.contains(x) {
                let a = choose|a: int| 0 <= a < t1.len() && #[trigger] t1[a] == x;
                assert(r1[a + 1] == x);
                assert(r1.contains(x));
                let b = choose|b: int| 0 <= b < r2.len() && #[trigger] r2[b] == x;
                if b == 0 {
                    assert(lex_lt(r1[0], r1[a + 1]));
                    lemma_lex_irreflexive(x);
                }
                assert(t2[b - 1] == x);
            }
            if t2.contains(x) {
                let a = choose|a: int| 0 <= a < t2.len() && #[trigger] t2[a] == x;
                assert(r2[a + 1] == x);
                assert(r2.contains(x));
                let b = choose|b: int| 0 <= b < r1.len() && #[trigger] r1[b] == x;
                if b == 0 {
                    assert(lex_lt(r2[0], r2[a + 1]));
                    lemma_lex_irreflexive(x);
                }
                assert(t1[b - 1] == x);
            }
        }
        lemma_sorted_set_unique(t1, t2);
        assert(r1 =~= seq![r1[0]] + t1);
        assert(r2 =~= seq![r2[0]] + t2);
    }
}

/// The distinct strings of `v` in ascending order (`sort` then `dedup`).
pub fn sort_dedup(v: &Vec<String>) -> (r: Vec<String>)
    ensures
        sorted_set_of(strings_view(r@), strings_view(v@)),
{
    let ghost sv = strings_view(v@);
    let mut out: Vec<String> = Vec::new();
    let mut i: usize = 0;
    while i < v.len()
        invariant
            i <= v@.len(),
            sv == strings_view(v@),
            sorted_set_of(strings_view(out@), sv.take(i as int)),
        decreases v.len() - i,
    {
        let x = str_chars(v[i].as_str());
        let ghost xs = x@;
        assert(xs == sv[i as int]);
        let ghost ov = strings_view(out@);
        // first position whose element is not below `x`
        let mut p: usize = 0;
        while p < out.len() && lex_less(&str_chars(out[p].as_str()), &x)
            invariant
                p <= out@.len(),
                ov == strings_view(out@),
                x@ == xs,
                forall|k: int| 0 <= k < p ==> lex_lt(#[trigger] ov[k], xs),
            decreases out.len() - p,
        {
            p += 1;
        }
        let present = p < out.len() && str_eq(out[p].as_str(), v[i].as_str());
        let ghost t0 = sv.take(i as int);
        let ghost t1 = sv.take(i + 1);
        proof {
            assert(t1 =~= t0.push(xs));
        }
        if !present {
            proof {
                if p < ov.len() {
                    lemma_lex_total(ov[p as int], xs);
                }
            }
            out.insert(p, v[i].clone());
            proof {
                let nv = strings_view(out@);
                assert(nv =~= ov.insert(p as int, xs));
                assert forall|a: int, b: int| 0 <= a < b < nv.len() implies lex_lt(#[trigger] nv[a], #[trigger] nv[b]) by {
                    if b < p {
                        assert(nv[a] == ov[a] && nv[b] == ov[b]);
                    } else if b == p {
                        assert(nv[a] == ov[a]);
                    } else if a > p {
                        assert(nv[a] == ov[a - 1] && nv[b] == ov[b - 1]);
                    } else if a == p {
                        assert(nv[b] == ov[b - 1]);
                        if b - 1 > p {
                            lemma_lex_trans(xs, ov[p as int], ov[b - 1]);
                        }
                    } else {
                        assert(nv[a] == ov[a] && nv[b] == ov[b - 1]);
                    }
                }
                assert forall|y: Seq<char>| #[trigger] nv.contains(y) <==> t1.contains(y) by {
                    if nv.contains(y) {
                        let a = choose|a: int| 0 <= a < nv.len() && #[trigger] nv[a] == y;
                        if a < p {
                            assert(ov[a] == y);
                            assert(ov.contains(y));
                        } else if a > p {
                            assert(ov[a - 1] == y);
                            assert(ov.contains(y));
                        }
                        if y != xs {
                            let c = choose|c: int| 0 <= c < t0.len() && #[trigger] t0[c] == y;
                            assert(t1[c] == y);
                        } else {
                            assert(t1[i as int] == y);
                        }
                    }
                    if t1.contains(y) {
                        let c = choose|c: int| 0 <= c < t1.len() && #[trigger] t1[c] == y;
                        if c < i {
                            assert(t0[c] == y);
                            assert(ov.contains(y));
                            let a = choose|a: int| 0 <= a < ov.len() && #[trigger] ov[a] == y;
                            if a < p {
                                assert(nv[a] == y);
                            } else {
                                assert(nv[a + 1] == y);
                            }
                        } else {
                            assert(nv[p as int] == y);
                        }
                    }
                }
            }
        } else {
            proof {
                assert(ov[p as int] == xs);
                assert forall|y: Seq<char>| #[trigger] ov.contains(y) <==> t1.contains(y) by {
                    if ov.contains(y) {
                        let c = choose|c: int| 0 <= c < t0.len() && #[trigger] t0[c] == y;
                        assert(t1[c] == y);
                    }
                    if t1.contains(y) {
                        let c = choose|c: int| 0 <= c < t1.len() && #[trigger] t1[c] == y;
                        if c < i {
                            assert(t0[c] == y);
                        }
                    }
                }
            }
        }
        i += 1;
    }
    assert(sv.take(v@.len() as int) =~= sv);
    out
}

// ---- cache key ----

/// The sources a cache key names: the given list lowercased, or "all" when
/// none is given.
pub open spec fn key_sources(sources: Option<Seq<Seq<char>>>) -> Seq<Seq<char>> {
    match sources {
        Some(l) => if l.len() > 0 {
            l.map_values(|s: Seq<char>| lowercase(s))
        } else {
            seq!["all"@]
        },
        None => seq!["all"@],
    }
}

pub open spec fn opt_strings_view(o: Option<&Vec<String>>) -> Option<Seq<Seq<char>>> {
    match o {
        Some(v) => Some(strings_view(v@)),
        None => None,
    }
}

/// The key under which an aggregated search is cached: the query trimmed
/// and lowercased, `|`, and the distinct sources in ascending order joined
/// by `,`; none when the cache is disabled or the query is blank.
pub fn cache_key(enabled: bool, query: &str, sources: Option<&Vec<String>>) -> (r: Option<String>)
    ensures
        r is Some <==> (enabled && lowercase(trim(query@)).len() > 0),
        r matches Some(k) ==> exists|src: Seq<Seq<char>>|
            #![trigger sorted_set_of(src, key_sources(opt_strings_view(sources)))]
            sorted_set_of(src, key_sources(opt_strings_view(sources))) && k@ == lowercase(
                trim(query@),
            ) + "|"@ + join(src, ","@),
{
    if !enabled {
        return None;
    }
    let t = chars_to_string(trim_chars(&str_chars(query)).as_slice());
    let q = to_lowercase(t.as_str());
    if q.as_str().is_empty() {
        return None;
    }
    let mut list: Vec<String> = Vec::new();
    let ghost want = key_sources(opt_strings_view(sources));
    match sources {
        Some(l) if l.len() > 0 => {
            let mut i: usize = 0;
            while i < l.len()
                invariant
                    i <= l@.len(),
                    list@.len() == i,
                    strings_view(list@) == strings_view(l@).take(i as int).map_values(
                        |s: Seq<char>| lowercase(s),
                    ),
                decreases l.len() - i,
            {
                let ghost prev = list@;
                list.push(to_lowercase(l[i].as_str()));
                assert forall|k: int| 0 <= k < i + 1 implies #[trigger] strings_view(list@)[k]
                    == strings_view(l@).take(i + 1).map_values(|s: Seq<char>| lowercase(s))[k] by {
                    if k < i {
                        assert(list@[k] == prev[k]);
                        assert(strings_view(prev)[k] == strings_view(l@).take(i as int).map_values(
                            |s: Seq<char>| lowercase(s),
                        )[k]);
                    }
                }
                assert(strings_view(list@) =~= strings_view(l@).take(i + 1).map_values(
                    |s: Seq<char>| lowercase(s),
                ));
                i += 1;
            }
            assert(strings_view(l@).take(l@.len() as int) =~= strings_view(l@));
        },
        _ => {
            list.push(chars_to_string(str_chars("all").as_slice()));
            assert(strings_view(list@) =~= seq!["all"@]);
        },
    }
    assert(strings_view(list@) == want);
    let src = sort_dedup(&list);
    let mut v = str_chars(q.as_str());
    push_str(&mut v, "|");
    push_joined(&mut v, &src, ",");
    Some(chars_to_string(v.as_slice()))
}

/// The cache key does not depend on the order or repetition of the
/// sources: two source lists with the same (lowercased) elements give
/// the same key.
pub proof fn law_cache_key_ignores_source_order(
    q: Seq<char>,
    src1: Seq<Seq<char>>,
    src2: Seq<Seq<char>>,
    s1: Seq<Seq<char>>,
    s2: Seq<Seq<char>>,
)
    requires
        sorted_set_of(src1, s1),
        sorted_set_of(src2, s2),
        forall|x: Seq<char>| #![trigger s1.contains(x)] #![trigger s2.contains(x)] s1.contains(x) <==> s2.contains(x),
    ensures
        q + "|"@ + join(src1, ","@) == q + "|"@ + join(src2, ","@),
{
    lemma_sorted_set_unique(src1, src2);
}

// ---- suggestions ----

/// The trimmed suggestions that are not empty, each first occurrence once.
pub open spec fn distinct_trimmed(items: Seq<Seq<char>>) -> Seq<Seq<char>>
    decreases items.len(),
{
    if items.len() == 0 {
        seq![]
    } else {
        let p = distinct_trimmed(items.drop_last());
        let t = trim(items.last());
        if t.len() == 0 || p.contains(t) {
            p
        } else {
            p.push(t)
        }
    }
}

/// At most the first ten of [`distinct_trimmed`].
pub open spec fn suggestions_spec(items: Seq<Seq<char>>) -> Seq<Seq<char>> {
    let d = distinct_trimmed(items);
    if d.len() > 10 {
        d.take(10)
    } else {
        d
    }
}

fn contains_string(v: &Vec<String>, s: &str) -> (r: bool)
    ensures
        r == strings_view(v@).contains(s@),
{
    let mut i: usize = 0;
    while i < v.len()
        invariant
            i <= v@.len(),
            forall|a: int| 0 <= a < i ==> v@[a]@ != s@,
        decreases v.len() - i,
    {
        if str_eq(v[i].as_str(), s) {
            assert(strings_view(v@)[i as int] == s@);
            return true;
        }
        i += 1;
    }
    assert forall|a: int| 0 <= a < strings_view(v@).len() implies strings_view(v@)[a] != s@ by {
        assert(v@[a]@ != s@);
    }
    false
}

/// Search suggestions: trimmed, blank ones and repeats dropped (order
/// kept), at most ten.
pub fn dedup_suggestions(items: Vec<String>) -> (r: Vec<String>)
    ensures
        strings_view(r@) == suggestions_spec(strings_view(items@)),
{
    let ghost sv = strings_view(items@);
    let mut out: Vec<String> = Vec::new();
    let mut i: usize = 0;
    while i < items.len()
        invariant
            i <= items@.len(),
            sv == strings_view(items@),
            strings_view(out@) == distinct_trimmed(sv.take(i as int)),
        decreases items.len() - i,
    {
        assert(sv.take(i + 1).drop_last() =~= sv.take(i as int));
        assert(sv.take(i + 1).last() == items@[i as int]@);
        let t = chars_to_string(trim_chars(&str_chars(items[i].as_str())).as_slice());
        if !t.as_str().is_empty() && !contains_string(&out, t.as_str()) {
            out.push(t);
        }
        assert(strings_view(out@) =~= distinct_trimmed(sv.take(i + 1)));
        i += 1;
    }
    assert(sv.take(items@.len() as int) =~= sv);
    if out.len() > 10 {
        out.truncate(10);
        assert(strings_view(out@) =~= distinct_trimmed(sv).take(10));
    }
    out
}

/// The DuckDuckGo autocomplete URL.
pub fn ddg_suggest_url(query: &str) -> (r: String)
    ensures
        r@ == "https://duckduckgo.com/ac/?q="@ + query_encoded(query@) + "&type=list"@,
{
    query_url("https://duckduckgo.com/ac/?q=", query, "&type=list")
}

/// The Baidu suggestion URL (JSONP, callback `educe`).
pub fn baidu_suggest_url(query: &str) -> (r: String)
    ensures
        r@ == "https://suggestion.baidu.com/su?wd="@ + query_encoded(query@) + "&cb=educe"@,
{
    query_url("https://suggestion.baidu.com/su?wd=", query, "&cb=educe")
}

/// The JSON object inside a JSONP response: from the first `{` to the last
/// `}`, both included (`None` when either is missing, or when the last `}`
/// comes before the first `{` with something between them, which is no
/// object).
pub open spec fn jsonp_object_spec(text: Seq<char>) -> Option<Seq<char>> {
    match (find(text, seq!['{']), rfind(text, seq!['}'])) {
        (Some(a), Some(b)) => if b + 1 < a {
            None
        } else {
            Some(text.subrange(a, b + 1))
        },
        _ => None,
    }
}

/// The JSON object inside a JSONP response.
pub fn jsonp_object(text: &str) -> (r: Option<String>)
    ensures
        opt_view(r) == jsonp_object_spec(text@),
{
    let v = str_chars(text);
    let open = vec!['{'];
    let close = vec!['}'];
    assert(open@ =~= seq!['{']);
    assert(close@ =~= seq!['}']);
    match (crate::text::find_from_chars(&v, &open, 0), crate::text::rfind_chars(&v, &close)) {
        (Some(a), Some(b)) => {
            if b + 1 < a {
                return None;
            }
            let n = v.len();
            assert(b + 1 <= n);
            let part = crate::text::slice_chars(&v, a, b + 1);
            Some(chars_to_string(part.as_slice()))
        },
        _ => None,
    }
}

// ---- paging and the cache window ----

/// Results `[offset, offset + max)` of a ranked list (clamped to its end).
pub open spec fn page_spec(ranked: Seq<ResultView>, offset: int, max: int) -> Seq<ResultView> {
    let lo = if offset < ranked.len() {
        offset
    } else {
        ranked.len() as int
    };
    let hi = if offset + max < ranked.len() {
        offset + max
    } else {
        ranked.len() as int
    };
    ranked.subrange(lo, hi)
}

/// Results `[lo, hi)` of a list.
pub fn slice_results(v: &Vec<SearchResult>, lo: usize, hi: usize) -> (r: Vec<SearchResult>)
    requires
        lo <= hi <= v@.len(),
    ensures
        results_view(r@) == results_view(v@).subrange(lo as int, hi as int),
{
    let mut out: Vec<SearchResult> = Vec::new();
    let mut i = lo;
    while i < hi
        invariant
            lo <= i <= hi <= v@.len(),
            out@.len() == i - lo,
            results_view(out@) == results_view(v@).subrange(lo as int, i as int),
        decreases hi - i,
    {
        let d = v[i].duplicate();
        let ghost prev = out@;
        out.push(d);
        assert forall|k: int| 0 <= k < out@.len() implies #[trigger] results_view(out@)[k]
            == results_view(v@).subrange(lo as int, i + 1)[k] by {
            if k < prev.len() {
                assert(out@[k] == prev[k]);
                assert(results_view(prev)[k] == results_view(v@).subrange(lo as int, i as int)[k]);
            }
        }
        assert(results_view(out@) =~= results_view(v@).subrange(lo as int, i + 1));
        i += 1;
    }
    out
}

/// The requested page of a ranked list (`skip(offset).take(max)`).
pub fn page_of(ranked: &Vec<SearchResult>, offset: usize, max: usize) -> (r: Vec<SearchResult>)
    ensures
        results_view(r@) == page_spec(results_view(ranked@), offset as int, max as int),
{
    let n = ranked.len();
    let lo = if offset < n {
        offset
    } else {
        n
    };
    let hi: usize = if (offset as u128) + (max as u128) < n as u128 {
        offset + max
    } else {
        n
    };
    slice_results(ranked, lo, hi)
}

/// The part of a ranked list of `total` results kept in the cache for a
/// request of `[offset, offset + max)`: from the previous page to the next
/// one, both clamped to the list; none when that is empty (a request past
/// the results caches nothing).
pub open spec fn window_spec(offset: int, max: int, total: int) -> Option<(int, int)> {
    let from = if offset - max > 0 {
        offset - max
    } else {
        0
    };
    let base = if from < total {
        from
    } else {
        total
    };
    let end = if offset + 2 * max < total {
        offset + 2 * max
    } else {
        total
    };
    if base < end {
        Some((base, end))
    } else {
        None
    }
}

/// Executable [`window_spec`].
pub fn cache_window(offset: usize, max: usize, total: usize) -> (r: Option<(usize, usize)>)
    ensures
        match window_spec(offset as int, max as int, total as int) {
            Some((b, e)) => r == Some((b as usize, e as usize)),
            None => r is None,
        },
{
    let from = if offset > max {
        offset - max
    } else {
        0
    };
    let base = if from < total {
        from
    } else {
        total
    };
    let end: usize = if (offset as u128) + 2 * (max as u128) < total as u128 {
        offset + 2 * max
    } else {
        total
    };
    if base < end {
        Some((base, end))
    } else {
        None
    }
}

/// Whether a request `[offset, offset + max)` falls inside a cached window
/// of `len` results starting at `base`.
pub open spec fn window_hit(offset: int, max: int, base: int, len: int) -> bool {
    offset >= base && offset + max <= base + len
}

/// The page a cached window serves, when the request falls inside it.
pub fn page_from_window(offset: usize, max: usize, base: usize, window: &Vec<SearchResult>) -> (r:
    Option<Vec<SearchResult>>)
    ensures
        window_hit(offset as int, max as int, base as int, window@.len() as int) <==> r is Some,
        r matches Some(v) ==> results_view(v@) == results_view(window@).subrange(
            offset - base,
            offset - base + max,
        ),
{
    if offset < base || (offset as u128) + (max as u128) > (base as u128) + (window.len() as u128) {
        return None;
    }
    let start = offset - base;
    Some(slice_results(window, start, start + max))
}

/// A page served from the cached window of a ranked list is the page the
/// full list gives.
pub proof fn law_window_page_is_page(
    ranked: Seq<ResultView>,
    offset0: int,
    max0: int,
    base: int,
    end: int,
    offset: int,
    max: int,
)
    requires
        window_spec(offset0, max0, ranked.len() as int) == Some((base, end)),
        offset0 >= 0,
        max0 >= 0,
        offset >= 0,
        max >= 0,
        window_hit(offset, max, base, end - base),
    ensures
        ranked.subrange(base, end).subrange(offset - base, offset - base + max) == page_spec(
            ranked,
            offset,
            max,
        ),
{
    assert(ranked.subrange(base, end).subrange(offset - base, offset - base + max) =~= page_spec(
        ranked,
        offset,
        max,
    ));
}

/// A search repeated before its cached window expires, for a page inside
/// that window, is served from the cache with the page the first search's
/// full ranking gives, and the same total. The first search (no weight
/// overrides, so its key is stored) ranked `ranked` for the page
/// `[offset0, offset0 + max0)` and stored its window under `key` at
/// `now_set`; the second asks `[offset, offset + max)` under the same key
/// (same query and source set, see [`law_cache_key_ignores_source_order`])
/// at `now_get`.
pub proof fn law_repeat_search_served_from_cache(
    s: crate::cache::CacheState,
    key: Seq<char>,
    ranked: Seq<ResultView>,
    offset0: int,
    max0: int,
    base: int,
    end: int,
    offset: int,
    max: int,
    now_set: int,
    now_get: int,
)
    requires
        s.ttl > 0,
        forall|i: int| 0 <= i < s.entries.len() ==> #[trigger] s.entries[i].order < s.counter,
        offset0 >= 0,
        max0 >= 0,
        offset >= 0,
        max >= 0,
        window_spec(offset0, max0, ranked.len() as int) == Some((base, end)),
        window_hit(offset, max, base, end - base),
        now_get < now_set + s.ttl,
    ensures
        ({
            let stored = crate::cache::set_state(
                s,
                key,
                base as nat,
                ranked.len(),
                ranked.subrange(base, end),
                now_set,
            );
            &&& crate::cache::get_hit(stored, key, now_get) matches Some(e)
            &&& e.total == ranked.len()
            &&& e.base == base
            &&& e.results.subrange(offset - e.base, offset - e.base + max) == page_spec(ranked, offset, max)
        }),
{
    crate::cache::law_get_after_set(
        s,
        key,
        base as nat,
        ranked.len(),
        ranked.subrange(base, end),
        now_set,
        now_get,
    );
    law_window_page_is_page(ranked, offset0, max0, base, end, offset, max);
}

// ---- engine selection, weights, concurrency ----

/// Whether an engine is selected by the sources whitelist (all are when
/// there is none).
pub fn is_selected(id: &str, sources: Option<&Vec<String>>) -> (r: bool)
    ensures
        r == match opt_strings_view(sources) {
            Some(l) => l.contains(id@),
            None => true,
        },
{
    match sources {
        Some(l) => contains_string(l, id),
        None => true,
    }
}

/// Whether a ranking may be cached: not when the visitor overrides weights.
pub fn caches_ranking(overrides: Option<&Vec<(String, u64)>>) -> (r: bool)
    ensures
        r == match overrides {
            Some(o) => o@.len() == 0,
            None => true,
        },
{
    match overrides {
        Some(o) => o.len() == 0,
        None => true,
    }
}

/// The cache entry an aggregated search reads and writes: its
/// [`cache_key`], but none when the visitor overrides weights (the ranking
/// then depends on the visitor, so the cache is skipped both ways).
pub fn cache_slot(
    enabled: bool,
    query: &str,
    sources: Option<&Vec<String>>,
    overrides: Option<&Vec<(String, u64)>>,
) -> (r: Option<String>)
    ensures
        r is Some <==> (enabled && lowercase(trim(query@)).len() > 0 && match overrides {
            Some(o) => o@.len() == 0,
            None => true,
        }),
        r matches Some(k) ==> exists|src: Seq<Seq<char>>|
            #![trigger sorted_set_of(src, key_sources(opt_strings_view(sources)))]
            sorted_set_of(src, key_sources(opt_strings_view(sources))) && k@ == lowercase(
                trim(query@),
            ) + "|"@ + join(src, ","@),
{
    if !caches_ranking(overrides) {
        return None;
    }
    cache_key(enabled, query, sources)
}

/// The report of one engine run: the number of its results, or no result
/// and the error's message when it failed.
pub fn report_of(
    id: String,
    outcome: &Result<Vec<SearchResult>, EngineError>,
    time_ms: u64,
    retried: bool,
) -> (r: EngineReport)
    ensures
        r.id == id,
        r.time_ms == time_ms,
        r.retried == retried,
        match outcome {
            Ok(v) => r.count == v@.len() && r.error is None,
            Err(e) => r.count == 0 && (r.error matches Some(m) && m@ == e.message_spec()),
        },
{
    match outcome {
        Ok(v) => EngineReport { id, count: v.len(), time_ms, error: None, retried },
        Err(e) => EngineReport { id, count: 0, time_ms, error: Some(e.message()), retried },
    }
}

/// Whether a run is tried once more: when it failed with a network error
/// or a timeout.
pub fn retries(outcome: &Result<Vec<SearchResult>, EngineError>) -> (r: bool)
    ensures
        r == (outcome matches Err(e) && (e is Http || e is Timeout)),
{
    match outcome {
        Ok(_) => false,
        Err(e) => e.retryable(),
    }
}

/// Number of engines run at the same time: `max_concurrent` within 1 to 32.
pub fn concurrency(cfg: &AppConfig) -> (r: usize)
    ensures
        r == if cfg.search.max_concurrent < 1 {
            1
        } else if cfg.search.max_concurrent > 32 {
            32
        } else {
            cfg.search.max_concurrent as int
        },
{
    let n = cfg.search.max_concurrent;
    if n < 1 {
        1
    } else if n > 32 {
        32
    } else {
        n
    }
}

/// The `,`-separated pieces of `s` (what `str::split(',')` yields).
pub open spec fn comma_pieces(s: Seq<char>) -> Seq<Seq<char>>
    decreases s.len(),
{
    if s.len() == 0 {
        seq![seq![]]
    } else {
        let p = comma_pieces(s.drop_last());
        if s.last() == ',' {
            p.push(seq![])
        } else {
            p.update(p.len() - 1, p.last().push(s.last()))
        }
    }
}

proof fn lemma_comma_pieces_nonempty(s: Seq<char>)
    ensures
        comma_pieces(s).len() > 0,
    decreases s.len(),
{
    if s.len() > 0 {
        lemma_comma_pieces_nonempty(s.drop_last());
    }
}

fn comma_split(s: &str) -> (r: Vec<Vec<char>>)
    ensures
        r@.map_values(|v: Vec<char>| v@) == comma_pieces(s@),
        r@.len() > 0,
{
    let v = str_chars(s);
    let mut out: Vec<Vec<char>> = Vec::new();
    out.push(Vec::new());
    let mut i: usize = 0;
    assert(out@.map_values(|w: Vec<char>| w@) =~= comma_pieces(v@.take(0)));
    while i < v.len()
        invariant
            i <= v@.len(),
            v@ == s@,
            out@.len() > 0,
            out@.map_values(|w: Vec<char>| w@) == comma_pieces(v@.take(i as int)),
        decreases v.len() - i,
    {
        assert(v@.take(i + 1).drop_last() =~= v@.take(i as int));
        assert(v@.take(i + 1).last() == v@[i as int]);
        proof {
            lemma_comma_pieces_nonempty(v@.take(i as int));
        }
        let ghost before = out@.map_values(|w: Vec<char>| w@);
        if v[i] == ',' {
            out.push(Vec::new());
            assert(out@.map_values(|w: Vec<char>| w@) =~= before.push(seq![]));
        } else {
            let mut last = out.pop().unwrap();
            last.push(v[i]);
            out.push(last);
            assert(out@.map_values(|w: Vec<char>| w@) =~= before.update(
                before.len() - 1,
                before.last().push(v@[i as int]),
            ));
        }
        i += 1;
    }
    assert(v@.take(v@.len() as int) =~= v@);
    out
}

/// Whether `s` is one of the `,`-separated pieces of `list`.
pub fn listed(list: &str, s: &str) -> (r: bool)
    ensures
        r == comma_pieces(list@).contains(s@),
{
    let pieces = comma_split(list);
    let t = str_chars(s);
    let ghost pv = pieces@.map_values(|v: Vec<char>| v@);
    let mut i: usize = 0;
    while i < pieces.len()
        invariant
            i <= pieces@.len(),
            pv == pieces@.map_values(|v: Vec<char>| v@),
            pv == comma_pieces(list@),
            t@ == s@,
            forall|a: int| 0 <= a < i ==> pv[a] != s@,
        decreases pieces.len() - i,
    {
        if crate::text::chars_eq(&pieces[i], &t) {
            assert(pv[i as int] == s@);
            return true;
        }
        i += 1;
    }
    false
}

/// The first engine of a (possibly merged) source list.
pub fn primary_source(source: &str) -> (r: String)
    ensures
        r@ == comma_pieces(source@)[0],
{
    let pieces = comma_split(source);
    assert(pieces@.map_values(|v: Vec<char>| v@)[0] == pieces@[0]@);
    chars_to_string(pieces[0].as_slice())
}

/// The ranking weight (`f64` bit pattern) of a result's first source: the
/// visitor's override, else the configured weight, else 1.0.
pub fn weight_bits(cfg: &AppConfig, overrides: Option<&Vec<(String, u64)>>, source: &str) -> (r: u64)
    ensures
        r == ({
            let src = comma_pieces(source@)[0];
            match (match overrides {
                Some(o) => lookup(o@, src),
                None => None,
            }) {
                Some(w) => w,
                None => match lookup(cfg.weights@, src) {
                    Some(w) => w,
                    None => DEFAULT_WEIGHT_BITS,
                },
            }
        }),
{
    let src = primary_source(source);
    let over = match overrides {
        Some(o) => lookup_in(o, src.as_str()),
        None => None,
    };
    match over {
        Some(w) => w,
        None => cfg.weight_for(src.as_str()),
    }
}

// ---- keywords ----

/// The lowercased query words of at least two characters.
pub open spec fn long_words(ws: Seq<Seq<char>>) -> Seq<Seq<char>>
    decreases ws.len(),
{
    if ws.len() == 0 {
        seq![]
    } else {
        let p = long_words(ws.drop_last());
        let w = lowercase(ws.last());
        if w.len() >= 2 {
            p.push(w)
        } else {
            p
        }
    }
}

/// The whitespace-separated words of `s` (`str::split_whitespace`).
pub fn split_words(s: &str) -> (r: Vec<String>)
    ensures
        strings_view(r@) == words(s@),
{
    let v = str_chars(s);
    let mut out: Vec<Vec<char>> = Vec::new();
    let mut i: usize = 0;
    assert(out@.map_values(|w: Vec<char>| w@) =~= words(v@.take(0)));
    while i < v.len()
        invariant
            i <= v@.len(),
            v@ == s@,
            out@.map_values(|w: Vec<char>| w@) == words(v@.take(i as int)),
        decreases v.len() - i,
    {
        let ghost pre = v@.take(i as int);
        assert(v@.take(i + 1).drop_last() =~= pre);
        assert(v@.take(i + 1).last() == v@[i as int]);
        let ghost before = out@.map_values(|w: Vec<char>| w@);
        let c = v[i];
        if crate::text::is_whitespace(c) {
        } else if i > 0 && !crate::text::is_whitespace(v[i - 1]) {
            proof {
                assert(pre.last() == v@[i - 1]);
                crate::text::lemma_words_nonempty(pre);
            }
            let mut last = out.pop().unwrap();
            last.push(c);
            out.push(last);
            assert(out@.map_values(|w: Vec<char>| w@) =~= before.update(
                before.len() - 1,
                before.last().push(c),
            ));
        } else {
            proof {
                if i > 0 {
                    assert(pre.last() == v@[i - 1]);
                }
            }
            let mut w: Vec<char> = Vec::new();
            w.push(c);
            out.push(w);
            assert(out@.map_values(|w: Vec<char>| w@) =~= before.push(seq![c]));
        }
        i += 1;
    }
    assert(v@.take(v@.len() as int) =~= v@);
    let mut r: Vec<String> = Vec::new();
    let ghost wv = out@.map_values(|w: Vec<char>| w@);
    let mut j: usize = 0;
    while j < out.len()
        invariant
            j <= out@.len(),
            wv == out@.map_values(|w: Vec<char>| w@),
            r@.len() == j,
            strings_view(r@) == wv.take(j as int),
        decreases out.len() - j,
    {
        let ghost prev = r@;
        r.push(chars_to_string(out[j].as_slice()));
        assert forall|k: int| 0 <= k < j + 1 implies #[trigger] strings_view(r@)[k] == wv.take(j + 1)[k] by {
            if k < j {
                assert(r@[k] == prev[k]);
                assert(strings_view(prev)[k] == wv.take(j as int)[k]);
            }
        }
        assert(strings_view(r@) =~= wv.take(j + 1));
        j += 1;
    }
    assert(wv.take(out@.len() as int) =~= wv);
    r
}

/// The words of a query matched against results: lowercased, at least
/// two characters long.
pub fn query_words(query: &str) -> (r: Vec<String>)
    ensures
        strings_view(r@) == long_words(words(query@)),
{
    let ws = split_words(query);
    let ghost wv = strings_view(ws@);
    let mut out: Vec<String> = Vec::new();
    let mut i: usize = 0;
    while i < ws.len()
        invariant
            i <= ws@.len(),
            wv == strings_view(ws@),
            strings_view(out@) == long_words(wv.take(i as int)),
        decreases ws.len() - i,
    {
        assert(wv.take(i + 1).drop_last() =~= wv.take(i as int));
        assert(wv.take(i + 1).last() == ws@[i as int]@);
        let w = to_lowercase(ws[i].as_str());
        if str_chars(w.as_str()).len() >= 2 {
            out.push(w);
        }
        assert(strings_view(out@) =~= long_words(wv.take(i + 1)));
        i += 1;
    }
    assert(wv.take(ws@.len() as int) =~= wv);
    out
}

/// Every character is an ASCII letter or digit.
pub open spec fn all_alnum(w: Seq<char>) -> bool {
    forall|i: int| 0 <= i < w.len() ==> #[trigger] is_ascii_alnum(w[i])
}

/// `w` occurs in `t` at `p` bounded on both sides by a character that is not
/// an ASCII letter or digit, or by an end of `t`.
pub open spec fn token_at(t: Seq<char>, w: Seq<char>, p: int) -> bool {
    &&& matches_at(t, p, w)
    &&& (p == 0 || !is_ascii_alnum(t[p - 1]))
    &&& (p + w.len() == t.len() || !is_ascii_alnum(t[p + w.len()]))
}

/// Whether a (lowercased) text matches a query word: as a whole token when
/// the word is ASCII letters and digits, as a substring otherwise.
pub open spec fn word_hit(t: Seq<char>, w: Seq<char>) -> bool {
    if all_alnum(w) {
        exists|p: int| #[trigger] token_at(t, w, p)
    } else {
        contains(t, w)
    }
}

fn alnum_all(w: &Vec<char>) -> (r: bool)
    ensures
        r == all_alnum(w@),
{
    let mut i: usize = 0;
    while i < w.len()
        invariant
            i <= w@.len(),
            forall|k: int| 0 <= k < i ==> #[trigger] is_ascii_alnum(w@[k]),
        decreases w.len() - i,
    {
        if !crate::text::ascii_alnum(w[i]) {
            return false;
        }
        i += 1;
    }
    true
}

fn hits(t: &Vec<char>, w: &Vec<char>) -> (r: bool)
    ensures
        r == word_hit(t@, w@),
{
    if !alnum_all(w) {
        return crate::text::contains_chars(t, w);
    }
    if w.len() > t.len() {
        assert forall|q: int| !#[trigger] token_at(t@, w@, q) by {
            assert(!matches_at(t@, q, w@));
        }
        return false;
    }
    let n = t.len();
    let last = n - w.len();
    let mut p: usize = 0;
    loop
        invariant
            p <= last,
            n == t@.len(),
            last + w@.len() == n,
            all_alnum(w@),
            forall|q: int| 0 <= q < p ==> !#[trigger] token_at(t@, w@, q),
        ensures
            forall|q: int| 0 <= q <= last ==> !#[trigger] token_at(t@, w@, q),
        decreases last - p,
    {
        let left = p == 0 || !crate::text::ascii_alnum(t[p - 1]);
        let right = p == last || !crate::text::ascii_alnum(t[p + w.len()]);
        if left && right && crate::text::match_at(t, p, w) {
            assert(token_at(t@, w@, p as int));
            return true;
        }
        assert(!token_at(t@, w@, p as int));
        if p == last {
            break;
        }
        p += 1;
    }
    assert forall|q: int| !#[trigger] token_at(t@, w@, q) by {
        if q > last {
            assert(!matches_at(t@, q, w@));
        }
    }
    false
}

/// How a query word boosts a result: 2 when the title matches it, 1 when
/// only the snippet does, 0 otherwise (one entry per word, in order).
pub open spec fn hit_kind(title: Seq<char>, snippet: Seq<char>, w: Seq<char>) -> u8 {
    if word_hit(title, w) {
        2
    } else if word_hit(snippet, w) {
        1
    } else {
        0
    }
}

/// The keyword boost of each query word for a result (title and snippet
/// lowercased).
pub fn keyword_hits(words_: &Vec<String>, title: &str, snippet: &str) -> (r: Vec<u8>)
    ensures
        r@.len() == words_@.len(),
        forall|i: int|
            0 <= i < r@.len() ==> #[trigger] r@[i] == hit_kind(
                lowercase(title@),
                lowercase(snippet@),
                words_@[i]@,
            ),
{
    let t = str_chars(to_lowercase(title).as_str());
    let sn = str_chars(to_lowercase(snippet).as_str());
    let mut out: Vec<u8> = Vec::new();
    let mut i: usize = 0;
    while i < words_.len()
        invariant
            i <= words_@.len(),
            t@ == lowercase(title@),
            sn@ == lowercase(snippet@),
            out@.len() == i,
            forall|k: int|
                0 <= k < i ==> #[trigger] out@[k] == hit_kind(
                    lowercase(title@),
                    lowercase(snippet@),
                    words_@[k]@,
                ),
        decreases words_.len() - i,
    {
        let w = str_chars(words_[i].as_str());
        let kind: u8 = if hits(&t, &w) {
            2
        } else if hits(&sn, &w) {
            1
        } else {
            0
        };
        out.push(kind);
        i += 1;
    }
    out
}

// ---- cross-source merging ----

/// A merged result: (merge key, result, ranks of the merged
/// results in arrival order).
pub type Group = (Seq<char>, ResultView, Seq<nat>);

/// The key two results are merged on: the redirect target of the URL,
/// normalized.
pub open spec fn merge_key(url: Seq<char>) -> Seq<char> {
    normalize_spec(unredirect_spec(url))
}

/// `m` with a later result `r` of the same target merged in: sources listed
/// side by side, the longer title and snippet, the better rank, the first
/// known publication date.
pub open spec fn merge_into(m: ResultView, r: ResultView) -> ResultView {
    ResultView {
        title: if r.title.len() > m.title.len() {
            r.title
        } else {
            m.title
        },
        url: m.url,
        snippet: if r.snippet.len() > m.snippet.len() {
            r.snippet
        } else {
            m.snippet
        },
        source: if comma_pieces(m.source).contains(r.source) {
            m.source
        } else {
            m.source + ","@ + r.source
        },
        rank: if r.rank < m.rank {
            r.rank
        } else {
            m.rank
        },
        published: if m.published is None {
            r.published
        } else {
            m.published
        },
    }
}

/// Position of the group with merge key `key`.
pub open spec fn group_index(gs: Seq<Group>, key: Seq<char>) -> Option<int>
    decreases gs.len(),
{
    if gs.len() == 0 {
        None
    } else if gs[0].0 == key {
        Some(0)
    } else {
        match group_index(gs.drop_first(), key) {
            Some(i) => Some(i + 1),
            None => None,
        }
    }
}

/// The groups after one more result arrives.
pub open spec fn merge_step(gs: Seq<Group>, r: ResultView) -> Seq<Group> {
    let target = unredirect_spec(r.url);
    let key = normalize_spec(target);
    match group_index(gs, key) {
        Some(i) => gs.update(i, (key, merge_into(gs[i].1, r), gs[i].2.push(r.rank))),
        None => gs.push((key, ResultView { url: target, ..r }, seq![r.rank])),
    }
}

/// The results merged by target, in order of first arrival.
pub open spec fn merge_all(rs: Seq<ResultView>) -> Seq<Group>
    decreases rs.len(),
{
    if rs.len() == 0 {
        seq![]
    } else {
        merge_step(merge_all(rs.drop_last()), rs.last())
    }
}

pub open spec fn ranks_view(v: Seq<usize>) -> Seq<nat> {
    v.map_values(|k: usize| k as nat)
}

pub open spec fn merged_view(v: Seq<(SearchResult, Vec<usize>)>) -> Seq<(ResultView, Seq<nat>)> {
    v.map_values(|g: (SearchResult, Vec<usize>)| (g.0@, ranks_view(g.1@)))
}

pub open spec fn groups_view(gs: Seq<Group>) -> Seq<(ResultView, Seq<nat>)> {
    gs.map_values(|g: Group| (g.1, g.2))
}

proof fn lemma_group_index(gs: Seq<Group>, key: Seq<char>)
    ensures
        match group_index(gs, key) {
            Some(i) => 0 <= i < gs.len() && gs[i].0 == key && forall|j: int|
                0 <= j < i ==> #[trigger] gs[j].0 != key,
            None => forall|j: int| 0 <= j < gs.len() ==> #[trigger] gs[j].0 != key,
        },
    decreases gs.len(),
{
    if gs.len() > 0 {
        lemma_group_index(gs.drop_first(), key);
        if gs[0].0 != key {
            match group_index(gs.drop_first(), key) {
                Some(i) => {
                    assert forall|j: int| 0 <= j < i + 1 implies #[trigger] gs[j].0 != key by {
                        if j > 0 {
                            assert(gs[j] == gs.drop_first()[j - 1]);
                        }
                    }
                },
                None => {
                    assert forall|j: int| 0 <= j < gs.len() implies #[trigger] gs[j].0 != key by {
                        if j > 0 {
                            assert(gs[j] == gs.drop_first()[j - 1]);
                        }
                    }
                },
            }
        }
    }
}

fn find_key_in(keys: &Vec<String>, key: &str) -> (r: Option<usize>)
    ensures
        match r {
            Some(i) => i < keys@.len() && keys@[i as int]@ == key@ && forall|j: int|
                0 <= j < i ==> #[trigger] keys@[j]@ != key@,
            None => forall|j: int| 0 <= j < keys@.len() ==> #[trigger] keys@[j]@ != key@,
        },
{
    let mut i: usize = 0;
    while i < keys.len()
        invariant
            i <= keys@.len(),
            forall|j: int| 0 <= j < i ==> #[trigger] keys@[j]@ != key@,
        decreases keys.len() - i,
    {
        if str_eq(keys[i].as_str(), key) {
            return Some(i);
        }
        i += 1;
    }
    None
}

fn concat3(a: &str, b: &str, c: &str) -> (r: String)
    ensures
        r@ == a@ + b@ + c@,
{
    let mut v = str_chars(a);
    push_str(&mut v, b);
    push_str(&mut v, c);
    chars_to_string(v.as_slice())
}

fn longer(a: &String, b: &String) -> (r: String)
    ensures
        r@ == if b@.len() > a@.len() {
            b@
        } else {
            a@
        },
{
    if str_chars(b.as_str()).len() > str_chars(a.as_str()).len() {
        b.clone()
    } else {
        a.clone()
    }
}

/// Merges the results that point at the same target (see [`merge_all`]);
/// each merged result comes with the ranks of what was merged
/// into it, from which the application sums the base scores.
pub fn merge_duplicates(all: &Vec<SearchResult>) -> (r: Vec<(SearchResult, Vec<usize>)>)
    ensures
        merged_view(r@) == groups_view(merge_all(results_view(all@))),
{
    let ghost rv = results_view(all@);
    let mut out: Vec<(SearchResult, Vec<usize>)> = Vec::new();
    let mut keys: Vec<String> = Vec::new();
    let mut i: usize = 0;
    while i < all.len()
        invariant
            i <= all@.len(),
            rv == results_view(all@),
            out@.len() == keys@.len(),
            merge_all(rv.take(i as int)).len() == out@.len(),
            merged_view(out@) == groups_view(merge_all(rv.take(i as int))),
            forall|j: int| 0 <= j < keys@.len() ==> #[trigger] keys@[j]@ == merge_all(rv.take(i as int))[j].0,
        decreases all.len() - i,
    {
        let ghost gs = merge_all(rv.take(i as int));
        assert(rv.take(i + 1).drop_last() =~= rv.take(i as int));
        assert(rv.take(i + 1).last() == all@[i as int]@);
        let r = &all[i];
        let target = unredirect_url(r.url.as_str());
        let key = normalize_url(target.as_str());
        proof {
            lemma_group_index(gs, key@);
        }
        let ghost after = merge_all(rv.take(i + 1));
        match find_key_in(&keys, key.as_str()) {
            Some(j) => {
                proof {
                    match group_index(gs, key@) {
                        Some(g) => {
                            if g < j {
                                assert(keys@[g]@ == gs[g].0);
                            } else if g > j {
                                assert(keys@[j as int]@ == gs[j as int].0);
                            }
                        },
                        None => {
                            assert(keys@[j as int]@ == gs[j as int].0);
                        },
                    }
                }
                assert(group_index(gs, key@) == Some(j as int));
                let ghost old_out = out@;
                let (m, mut ranks) = out.remove(j);
                assert(old_out[j as int] == (m, ranks));
                assert(merged_view(old_out)[j as int] == groups_view(gs)[j as int]);
                assert(m@ == gs[j as int].1);
                assert(ranks_view(ranks@) == gs[j as int].2);
                let source = if listed(m.source.as_str(), r.source.as_str()) {
                    m.source.clone()
                } else {
                    concat3(m.source.as_str(), ",", r.source.as_str())
                };
                let published = match &m.published {
                    Some(p) => Some(p.clone()),
                    None => match &r.published {
                        Some(p) => Some(p.clone()),
                        None => None,
                    },
                };
                let merged = SearchResult {
                    title: longer(&m.title, &r.title),
                    url: m.url.clone(),
                    snippet: longer(&m.snippet, &r.snippet),
                    source,
                    rank: if r.rank < m.rank {
                        r.rank
                    } else {
                        m.rank
                    },
                    published,
                };
                let ghost mv = merged@;
                assert(mv == merge_into(gs[j as int].1, r@));
                ranks.push(r.rank);
                assert(ranks_view(ranks@) =~= gs[j as int].2.push(r.rank as nat));
                let ghost entry = (merged, ranks);
                out.insert(j, (merged, ranks));
                assert(out@ =~= old_out.update(j as int, entry));
                assert(after == gs.update(
                    j as int,
                    (key@, merge_into(gs[j as int].1, r@), gs[j as int].2.push(r@.rank)),
                ));
                assert forall|k: int| 0 <= k < keys@.len() implies #[trigger] keys@[k]@ == after[k].0 by {
                    assert(keys@[k]@ == gs[k].0);
                }
                assert forall|k: int| 0 <= k < out@.len() implies #[trigger] merged_view(out@)[k]
                    == groups_view(after)[k] by {
                    if k != j {
                        assert(merged_view(old_out)[k] == groups_view(gs)[k]);
                    }
                }
            },
            None => {
                proof {
                    match group_index(gs, key@) {
                        Some(g) => {
                            assert(keys@[g]@ == gs[g].0);
                        },
                        None => {},
                    }
                }
                assert(group_index(gs, key@) is None);
                let item = SearchResult {
                    title: r.title.clone(),
                    url: target,
                    snippet: r.snippet.clone(),
                    source: r.source.clone(),
                    rank: r.rank,
                    published: match &r.published {
                        Some(p) => Some(p.clone()),
                        None => None,
                    },
                };
                let mut ranks: Vec<usize> = Vec::new();
                ranks.push(r.rank);
                assert(item@ == ResultView { url: target@, ..r@ });
                let ghost entry = (item, ranks);
                let ghost old_out = out@;
                let ghost old_keys = keys@;
                out.push((item, ranks));
                keys.push(key);
                assert(after == gs.push(
                    (key@, ResultView { url: target@, ..r@ }, seq![r@.rank]),
                ));
                assert(ranks_view(entry.1@) =~= seq![r@.rank]);
                assert forall|k: int| 0 <= k < keys@.len() implies #[trigger] keys@[k]@ == after[k].0 by {
                    if k < old_keys.len() {
                        assert(keys@[k] == old_keys[k]);
                        assert(old_keys[k]@ == gs[k].0);
                    }
                }
                assert forall|k: int| 0 <= k < out@.len() implies #[trigger] merged_view(out@)[k]
                    == groups_view(after)[k] by {
                    if k < old_out.len() {
                        assert(out@[k] == old_out[k]);
                        assert(merged_view(old_out)[k] == groups_view(gs)[k]);
                    }
                }
            },
        }
        assert(merged_view(out@) =~= groups_view(after));
        i += 1;
    }
    assert(rv.take(all@.len() as int) =~= rv);
    out
}

/// No two groups share a merge key.
pub open spec fn keys_distinct(gs: Seq<Group>) -> bool {
    forall|i: int, j: int| 0 <= i < j < gs.len() ==> #[trigger] gs[i].0 != #[trigger] gs[j].0
}

/// Some group has merge key `key`.
pub open spec fn has_group(gs: Seq<Group>, key: Seq<char>) -> bool {
    exists|g: int| 0 <= g < gs.len() && #[trigger] gs[g].0 == key
}

proof fn lemma_comma_pieces_concat(a: Seq<char>, b: Seq<char>)
    ensures
        comma_pieces(a + seq![','] + b) == comma_pieces(a) + comma_pieces(b),
    decreases b.len(),
{
    let s = a + seq![','] + b;
    if b.len() == 0 {
        assert(s.drop_last() =~= a);
        assert(comma_pieces(a).push(seq![]) =~= comma_pieces(a) + seq![seq![]]);
    } else {
        let b0 = b.drop_last();
        let c = b.last();
        lemma_comma_pieces_concat(a, b0);
        assert(s.drop_last() =~= a + seq![','] + b0);
        assert(s.last() == c);
        lemma_comma_pieces_nonempty(b0);
        let pa = comma_pieces(a);
        let pb = comma_pieces(b0);
        if c == ',' {
            assert((pa + pb).push(seq![]) =~= pa + pb.push(seq![]));
        } else {
            let q = pa + pb;
            assert(q.update(q.len() - 1, q.last().push(c)) =~= pa + pb.update(pb.len() - 1, pb.last().push(c)));
        }
    }
}

proof fn lemma_comma_free_piece(b: Seq<char>)
    requires
        !b.contains(','),
    ensures
        comma_pieces(b) == seq![b],
    decreases b.len(),
{
    if b.len() > 0 {
        let b0 = b.drop_last();
        assert(!b0.contains(',')) by {
            if b0.contains(',') {
                let i = choose|i: int| 0 <= i < b0.len() && b0[i] == ',';
                assert(b[i] == ',');
            }
        }
        lemma_comma_free_piece(b0);
        assert(b[b.len() - 1] != ',');
        assert(b0.push(b.last()) =~= b);
        let q = seq![b0];
        assert(q.update(0, q.last().push(b.last())) =~= seq![b]);
    } else {
        assert(b =~= Seq::<char>::empty());
    }
}

/// Merging lists every source side by side: the merged result's sources,
/// split at commas, include the source of each result merged into it
/// (a single engine id, without a comma).
#[verifier::spinoff_prover]
pub proof fn law_merge_lists_sources(rs: Seq<ResultView>)
    ensures
        forall|g: int, k: int|
            #![trigger merge_all(rs)[g], rs[k]]
            0 <= g < merge_all(rs).len() && 0 <= k < rs.len() && merge_all(rs)[g].0 == merge_key(
                rs[k].url,
            ) && !rs[k].source.contains(',') ==> comma_pieces(merge_all(rs)[g].1.source).contains(
                rs[k].source,
            ),
    decreases rs.len(),
{
    if rs.len() > 0 {
        let p = rs.drop_last();
        law_merge_lists_sources(p);
        law_merge_one_per_target(p);
        let gs = merge_all(p);
        let r = rs.last();
        let key = merge_key(r.url);
        let ng = merge_all(rs);
        lemma_group_index(gs, key);
        assert(ng == merge_step(gs, r));
        assert(rs[rs.len() - 1] == r);
        assert forall|g: int, k: int|
            #![trigger ng[g], rs[k]]
            0 <= g < ng.len() && 0 <= k < rs.len() && ng[g].0 == merge_key(rs[k].url)
                && !rs[k].source.contains(',') implies comma_pieces(ng[g].1.source).contains(rs[k].source) by {
            match group_index(gs, key) {
                Some(i) => {
                    if g == i {
                        let m = gs[i].1;
                        if !comma_pieces(m.source).contains(r.source) {
                            lemma_comma_pieces_concat(m.source, r.source);
                            let pm = comma_pieces(m.source);
                            let pr = comma_pieces(r.source);
                            assert(ng[g].1.source == m.source + seq![','] + r.source) by {
                                assert(m.source + ","@ + r.source =~= m.source + seq![','] + r.source) by {
                                    reveal_strlit(",");
                                }
                            }
                            if k < p.len() {
                                assert(rs[k] == p[k]);
                                assert(pm.contains(rs[k].source));
                                let n = choose|n: int| 0 <= n < pm.len() && pm[n] == rs[k].source;
                                assert((pm + pr)[n] == pm[n]);
                            } else {
                                lemma_comma_free_piece(r.source);
                                assert((pm + pr)[pm.len() as int] == r.source);
                            }
                        } else if k < p.len() {
                            assert(rs[k] == p[k]);
                        }
                    } else {
                        assert(ng[g] == gs[g]);
                        if k < p.len() {
                            assert(rs[k] == p[k]);
                        } else {
                            assert(gs[g].0 != gs[i].0);
                        }
                    }
                },
                None => {
                    assert(ng == gs.push(ng.last()));
                    if g < gs.len() {
                        assert(ng[g] == gs[g]);
                        if k < p.len() {
                            assert(rs[k] == p[k]);
                        }
                    } else if k < p.len() {
                        assert(rs[k] == p[k]);
                        assert(has_group(gs, merge_key(p[k].url)));
                        let h = choose|h: int| 0 <= h < gs.len() && #[trigger] gs[h].0 == merge_key(p[k].url);
                        assert(gs[h].0 != key);
                    } else {
                        lemma_comma_free_piece(r.source);
                        assert(comma_pieces(r.source)[0] == r.source);
                    }
                },
            }
        }
    }
}

/// A merged result links to the redirect target of the first result that
/// reached it, and carries a publication date when any result merged into
/// it has one, taken from one of them.
#[verifier::spinoff_prover]
#[verifier::rlimit(60)]
pub proof fn law_merge_first_target(rs: Seq<ResultView>)
    ensures
        forall|g: int|
            #![trigger merge_all(rs)[g]]
            0 <= g < merge_all(rs).len() ==> exists|k: int|
                #![trigger rs[k]]
                0 <= k < rs.len() && merge_all(rs)[g].0 == merge_key(rs[k].url) && merge_all(rs)[g].1.url
                    == unredirect_spec(rs[k].url) && forall|j: int|
                    0 <= j < k ==> merge_all(rs)[g].0 != merge_key(#[trigger] rs[j].url),
        forall|g: int, k: int|
            #![trigger merge_all(rs)[g], rs[k]]
            0 <= g < merge_all(rs).len() && 0 <= k < rs.len() && merge_all(rs)[g].0 == merge_key(
                rs[k].url,
            ) && rs[k].published is Some ==> merge_all(rs)[g].1.published is Some,
        forall|g: int|
            #![trigger merge_all(rs)[g]]
            0 <= g < merge_all(rs).len() && merge_all(rs)[g].1.published is Some ==> exists|k: int|
                #![trigger rs[k]]
                0 <= k < rs.len() && merge_all(rs)[g].0 == merge_key(rs[k].url)
                    && merge_all(rs)[g].1.published == rs[k].published,
    decreases rs.len(),
{
    if rs.len() > 0 {
        let p = rs.drop_last();
        law_merge_first_target(p);
        law_merge_one_per_target(p);
        let gs = merge_all(p);
        let r = rs.last();
        let key = merge_key(r.url);
        let ng = merge_all(rs);
        lemma_group_index(gs, key);
        assert(ng == merge_step(gs, r));
        assert(rs[rs.len() - 1] == r);
        assert forall|k: int| 0 <= k < p.len() implies #[trigger] rs[k] == p[k] by {}
        assert forall|g: int| #![trigger ng[g]] 0 <= g < ng.len() implies exists|k: int|
            #![trigger rs[k]]
            0 <= k < rs.len() && ng[g].0 == merge_key(rs[k].url) && ng[g].1.url == unredirect_spec(rs[k].url)
                && forall|j: int| 0 <= j < k ==> ng[g].0 != merge_key(#[trigger] rs[j].url) by {
            if g < gs.len() {
                let k = choose|k: int|
                    #![trigger p[k]]
                    0 <= k < p.len() && gs[g].0 == merge_key(p[k].url) && gs[g].1.url == unredirect_spec(p[k].url)
                        && forall|j: int| 0 <= j < k ==> gs[g].0 != merge_key(#[trigger] p[j].url);
                assert(ng[g].0 == gs[g].0 && ng[g].1.url == gs[g].1.url);
                assert(rs[k] == p[k]);
                assert forall|j: int| 0 <= j < k implies ng[g].0 != merge_key(#[trigger] rs[j].url) by {
                    assert(rs[j] == p[j]);
                }
            } else {
                assert(group_index(gs, key) is None);
                assert forall|j: int| 0 <= j < rs.len() - 1 implies ng[g].0 != merge_key(#[trigger] rs[j].url) by {
                    assert(rs[j] == p[j]);
                    assert(has_group(gs, merge_key(p[j].url)));
                    let h = choose|h: int| 0 <= h < gs.len() && #[trigger] gs[h].0 == merge_key(p[j].url);
                }
            }
        }
        assert forall|g: int, k: int|
            #![trigger ng[g], rs[k]]
            0 <= g < ng.len() && 0 <= k < rs.len() && ng[g].0 == merge_key(rs[k].url) && rs[k].published is Some
                implies ng[g].1.published is Some by {
            match group_index(gs, key) {
                Some(i) => {
                    if g != i {
                        assert(ng[g] == gs[g]);
                        if k == rs.len() - 1 {
                            assert(gs[g].0 != gs[i].0);
                        }
                    } else if k < p.len() {
                        assert(gs[g].0 == merge_key(p[k].url));
                    }
                },
                None => {
                    if g < gs.len() {
                        assert(ng[g] == gs[g]);
                    } else if k < p.len() {
                        assert(has_group(gs, merge_key(p[k].url)));
                        let h = choose|h: int| 0 <= h < gs.len() && #[trigger] gs[h].0 == merge_key(p[k].url);
                        assert(gs[h].0 != key);
                    }
                },
            }
        }
        assert forall|g: int| #![trigger ng[g]] 0 <= g < ng.len() && ng[g].1.published is Some implies exists|k: int|
            #![trigger rs[k]]
            0 <= k < rs.len() && ng[g].0 == merge_key(rs[k].url) && ng[g].1.published == rs[k].published by {
            let from_old = g < gs.len() && gs[g].1.published is Some && ng[g].1.published == gs[g].1.published
                && ng[g].0 == gs[g].0;
            if from_old {
                let k = choose|k: int|
                    #![trigger p[k]]
                    0 <= k < p.len() && gs[g].0 == merge_key(p[k].url) && gs[g].1.published == p[k].published;
                assert(rs[k] == p[k]);
            } else {
                assert(rs[rs.len() - 1] == r);
            }
        }
    }
}

/// Every merged result keeps the longest title and snippet and the best
/// rank of the results merged into it: for each result `rs[k]` whose target
/// is the group's, the group's title and snippet are at least as long as
/// its own and the group's rank at most its own; and the group's title and
/// snippet are those of one of its members.
#[verifier::spinoff_prover]
#[verifier::rlimit(60)]
pub proof fn law_merge_keeps_longest(rs: Seq<ResultView>)
    ensures
        forall|g: int, k: int|
            #![trigger merge_all(rs)[g], rs[k]]
            0 <= g < merge_all(rs).len() && 0 <= k < rs.len() && merge_all(rs)[g].0 == merge_key(
                rs[k].url,
            ) ==> {
                &&& merge_all(rs)[g].1.snippet.len() >= rs[k].snippet.len()
                &&& merge_all(rs)[g].1.title.len() >= rs[k].title.len()
                &&& merge_all(rs)[g].1.rank <= rs[k].rank
            },
        forall|g: int|
            #![trigger merge_all(rs)[g]]
            0 <= g < merge_all(rs).len() ==> exists|k: int|
                #![trigger rs[k]]
                0 <= k < rs.len() && merge_all(rs)[g].0 == merge_key(rs[k].url)
                    && merge_all(rs)[g].1.snippet == rs[k].snippet,
        forall|g: int|
            #![trigger merge_all(rs)[g]]
            0 <= g < merge_all(rs).len() ==> exists|k: int|
                #![trigger rs[k]]
                0 <= k < rs.len() && merge_all(rs)[g].0 == merge_key(rs[k].url)
                    && merge_all(rs)[g].1.title == rs[k].title,
    decreases rs.len(),
{
    if rs.len() > 0 {
        let p = rs.drop_last();
        law_merge_keeps_longest(p);
        law_merge_one_per_target(p);
        let gs = merge_all(p);
        let r = rs.last();
        let key = merge_key(r.url);
        let ng = merge_all(rs);
        lemma_group_index(gs, key);
        assert(ng == merge_step(gs, r));
        assert(rs[rs.len() - 1] == r);
        assert forall|k: int| 0 <= k < p.len() implies #[trigger] rs[k] == p[k] by {}
        match group_index(gs, key) {
            Some(i) => {
                assert(ng.len() == gs.len());
                assert forall|g: int, k: int|
                    #![trigger ng[g], rs[k]]
                    0 <= g < ng.len() && 0 <= k < rs.len() && ng[g].0 == merge_key(rs[k].url) implies {
                        &&& ng[g].1.snippet.len() >= rs[k].snippet.len()
                        &&& ng[g].1.title.len() >= rs[k].title.len()
                        &&& ng[g].1.rank <= rs[k].rank
                    } by {
                    if g == i {
                        if k < p.len() {
                            assert(rs[k] == p[k]);
                            assert(gs[g].0 == merge_key(p[k].url));
                        }
                    } else {
                        assert(ng[g] == gs[g]);
                        if k < p.len() {
                            assert(rs[k] == p[k]);
                            assert(gs[g].0 == merge_key(p[k].url));
                        } else {
                            assert(gs[g].0 != gs[i].0);
                        }
                    }
                }
                assert forall|g: int| #![trigger ng[g]] 0 <= g < ng.len() implies exists|k: int|
                    #![trigger rs[k]]
                    0 <= k < rs.len() && ng[g].0 == merge_key(rs[k].url) && ng[g].1.snippet
                        == rs[k].snippet by {
                    if g == i && r.snippet.len() > gs[i].1.snippet.len() {
                        assert(rs[rs.len() - 1] == r);
                    } else {
                        let k = choose|k: int|
                            #![trigger p[k]]
                            0 <= k < p.len() && gs[g].0 == merge_key(p[k].url) && gs[g].1.snippet
                                == p[k].snippet;
                        assert(rs[k] == p[k]);
                    }
                }
                assert forall|g: int| #![trigger ng[g]] 0 <= g < ng.len() implies exists|k: int|
                    #![trigger rs[k]]
                    0 <= k < rs.len() && ng[g].0 == merge_key(rs[k].url) && ng[g].1.title
                        == rs[k].title by {
                    if g == i && r.title.len() > gs[i].1.title.len() {
                        assert(rs[rs.len() - 1] == r);
                    } else {
                        let k = choose|k: int|
                            #![trigger p[k]]
                            0 <= k < p.len() && gs[g].0 == merge_key(p[k].url) && gs[g].1.title
                                == p[k].title;
                        assert(rs[k] == p[k]);
                    }
                }
            },
            None => {
                assert(ng == gs.push(ng.last()));
                assert forall|g: int, k: int|
                    #![trigger ng[g], rs[k]]
                    0 <= g < ng.len() && 0 <= k < rs.len() && ng[g].0 == merge_key(rs[k].url) implies {
                        &&& ng[g].1.snippet.len() >= rs[k].snippet.len()
                        &&& ng[g].1.title.len() >= rs[k].title.len()
                        &&& ng[g].1.rank <= rs[k].rank
                    } by {
                    if g < gs.len() {
                        assert(ng[g] == gs[g]);
                        if k < p.len() {
                            assert(rs[k] == p[k]);
                            assert(gs[g].0 == merge_key(p[k].url));
                        }
                    } else if k < p.len() {
                        assert(rs[k] == p[k]);
                        assert(has_group(gs, merge_key(p[k].url)));
                        let h = choose|h: int| 0 <= h < gs.len() && #[trigger] gs[h].0 == merge_key(p[k].url);
                        assert(gs[h].0 != key);
                    }
                }
                assert forall|g: int| #![trigger ng[g]] 0 <= g < ng.len() implies exists|k: int|
                    #![trigger rs[k]]
                    0 <= k < rs.len() && ng[g].0 == merge_key(rs[k].url) && ng[g].1.snippet
                        == rs[k].snippet by {
                    if g < gs.len() {
                        assert(ng[g] == gs[g]);
                        let k = choose|k: int|
                            #![trigger p[k]]
                            0 <= k < p.len() && gs[g].0 == merge_key(p[k].url) && gs[g].1.snippet
                                == p[k].snippet;
                        assert(rs[k] == p[k]);
                    } else {
                        assert(rs[rs.len() - 1] == r);
                    }
                }
                assert forall|g: int| #![trigger ng[g]] 0 <= g < ng.len() implies exists|k: int|
                    #![trigger rs[k]]
                    0 <= k < rs.len() && ng[g].0 == merge_key(rs[k].url) && ng[g].1.title
                        == rs[k].title by {
                    if g < gs.len() {
                        assert(ng[g] == gs[g]);
                        let k = choose|k: int|
                            #![trigger p[k]]
                            0 <= k < p.len() && gs[g].0 == merge_key(p[k].url) && gs[g].1.title
                                == p[k].title;
                        assert(rs[k] == p[k]);
                    } else {
                        assert(rs[rs.len() - 1] == r);
                    }
                }
            },
        }
    }
}

/// Merging leaves one result per target: the merged results have distinct
/// merge keys, and the key of every input result is among them.
pub proof fn law_merge_one_per_target(rs: Seq<ResultView>)
    ensures
        keys_distinct(merge_all(rs)),
        forall|k: int| 0 <= k < rs.len() ==> has_group(merge_all(rs), #[trigger] merge_key(rs[k].url)),
    decreases rs.len(),
{
    if rs.len() > 0 {
        let p = rs.drop_last();
        law_merge_one_per_target(p);
        let gs = merge_all(p);
        let r = rs.last();
        let key = merge_key(r.url);
        let ng = merge_all(rs);
        lemma_group_index(gs, key);
        assert(ng == merge_step(gs, r));
        match group_index(gs, key) {
            Some(i) => {
                assert(ng.len() == gs.len());
                assert forall|a: int| 0 <= a < ng.len() implies #[trigger] ng[a].0 == gs[a].0 by {}
                assert forall|a: int, b: int| 0 <= a < b < ng.len() implies #[trigger] ng[a].0 != #[trigger] ng[b].0 by {
                    assert(ng[a].0 == gs[a].0 && ng[b].0 == gs[b].0);
                }
                assert forall|k: int| 0 <= k < rs.len() implies has_group(ng, #[trigger] merge_key(rs[k].url)) by {
                    if k < p.len() {
                        assert(rs[k] == p[k]);
                        assert(has_group(gs, merge_key(p[k].url)));
                        let g = choose|g: int| 0 <= g < gs.len() && #[trigger] gs[g].0 == merge_key(p[k].url);
                        assert(ng[g].0 == gs[g].0);
                    } else {
                        assert(ng[i].0 == key);
                    }
                }
            },
            None => {
                assert(ng == gs.push(ng.last()));
                assert(ng.last().0 == key);
                assert forall|a: int, b: int| 0 <= a < b < ng.len() implies #[trigger] ng[a].0 != #[trigger] ng[b].0 by {
                    assert(ng[a] == gs[a]);
                    if b < gs.len() {
                        assert(ng[b] == gs[b]);
                    }
                }
                assert forall|k: int| 0 <= k < rs.len() implies has_group(ng, #[trigger] merge_key(rs[k].url)) by {
                    if k < p.len() {
                        assert(rs[k] == p[k]);
                        assert(has_group(gs, merge_key(p[k].url)));
                        let g = choose|g: int| 0 <= g < gs.len() && #[trigger] gs[g].0 == merge_key(p[k].url);
                        assert(ng[g] == gs[g]);
                    } else {
                        assert(ng[gs.len() as int].0 == key);
                    }
                }
            },
        }
    }
}

/// The results with each URL replaced by its redirect target (the
/// ranking path without merging).
pub fn unredirect_all(all: &Vec<SearchResult>) -> (r: Vec<SearchResult>)
    ensures
        results_view(r@) == results_view(all@).map_values(
            |x: ResultView| ResultView { url: unredirect_spec(x.url), ..x },
        ),
{
    let ghost want = results_view(all@).map_values(
        |x: ResultView| ResultView { url: unredirect_spec(x.url), ..x },
    );
    let mut out: Vec<SearchResult> = Vec::new();
    let mut i: usize = 0;
    while i < all.len()
        invariant
            i <= all@.len(),
            want == results_view(all@).map_values(
                |x: ResultView| ResultView { url: unredirect_spec(x.url), ..x },
            ),
            out@.len() == i,
            results_view(out@) == want.take(i as int),
        decreases all.len() - i,
    {
        let mut d = all[i].duplicate();
        d.url = unredirect_url(all[i].url.as_str());
        let ghost prev = out@;
        out.push(d);
        assert forall|k: int| 0 <= k < i + 1 implies #[trigger] results_view(out@)[k] == want.take(i + 1)[k] by {
            if k < i {
                assert(out@[k] == prev[k]);
                assert(results_view(prev)[k] == want.take(i as int)[k]);
            }
        }
        assert(results_view(out@) =~= want.take(i + 1));
        i += 1;
    }
    assert(want.take(all@.len() as int) =~= want);
    out
}

// ---- per-source reports ----

/// Plain view of an [`EngineReport`].
pub type ReportView = (Seq<char>, usize, u64, Option<Seq<char>>, bool);

pub open spec fn report_view(r: EngineReport) -> ReportView {
    (r.id@, r.count, r.time_ms, opt_view(r.error), r.retried)
}

pub open spec fn reports_view(v: Seq<EngineReport>) -> Seq<ReportView> {
    v.map_values(|r: EngineReport| report_view(r))
}

/// Ordered by id (ascending, equal ids in any order).
pub open spec fn sorted_by_id(v: Seq<ReportView>) -> bool {
    forall|i: int, j: int| 0 <= i < j < v.len() ==> !lex_lt(#[trigger] v[j].0, #[trigger] v[i].0)
}

proof fn lemma_insert_multiset<A>(s: Seq<A>, p: int, x: A)
    requires
        0 <= p <= s.len(),
    ensures
        s.insert(p, x).to_multiset() == s.to_multiset().insert(x),
{
    let t = s.insert(p, x);
    s.insert_ensures(p, x);
    t.to_multiset_ensures();
    assert(t.remove(p) =~= s);
    assert(t.contains(x)) by {
        assert(t[p] == x);
    }
    assert(t.to_multiset() =~= s.to_multiset().insert(x));
}

/// The reports ordered by engine id (a stable insertion sort).
pub fn sort_reports(reports: Vec<EngineReport>) -> (r: Vec<EngineReport>)
    ensures
        sorted_by_id(reports_view(r@)),
        reports_view(r@).to_multiset() == reports_view(reports@).to_multiset(),
{
    let ghost input = reports_view(reports@);
    let mut rest = reports;
    let n = rest.len();
    let mut out: Vec<EngineReport> = Vec::new();
    let mut c: usize = 0;
    proof {
        assert(input.take(0) =~= Seq::<ReportView>::empty());
        assert(reports_view(out@) =~= Seq::<ReportView>::empty());
    }
    while rest.len() > 0
        invariant
            c <= n,
            n == input.len(),
            rest@.len() + c == n,
            reports_view(rest@) == input.skip(c as int),
            sorted_by_id(reports_view(out@)),
            reports_view(out@).to_multiset() == input.take(c as int).to_multiset(),
        decreases rest@.len(),
    {
        let ghost old_rest = rest@;
        let x = rest.remove(0);
        assert forall|k: int| 0 <= k < rest@.len() implies #[trigger] reports_view(rest@)[k]
            == input.skip(c + 1)[k] by {
            assert(rest@[k] == old_rest[k + 1]);
            assert(reports_view(old_rest)[k + 1] == input.skip(c as int)[k + 1]);
        }
        assert(reports_view(rest@) =~= input.skip(c + 1));
        let ghost xv = report_view(x);
        assert(input.skip(c as int)[0] == xv);
        let ghost ov = reports_view(out@);
        let xid = str_chars(x.id.as_str());
        let mut p: usize = 0;
        while p < out.len() && !lex_less(&xid, &str_chars(out[p].id.as_str()))
            invariant
                p <= out@.len(),
                ov == reports_view(out@),
                xid@ == xv.0,
                forall|k: int| 0 <= k < p ==> !lex_lt(xv.0, #[trigger] ov[k].0),
            decreases out.len() - p,
        {
            p += 1;
        }
        out.insert(p, x);
        proof {
            let nv = reports_view(out@);
            assert(nv =~= ov.insert(p as int, xv));
            assert forall|a: int, b: int| 0 <= a < b < nv.len() implies !lex_lt(#[trigger] nv[b].0, #[trigger] nv[a].0) by {
                if b < p {
                    assert(nv[a] == ov[a] && nv[b] == ov[b]);
                } else if b == p {
                    assert(nv[a] == ov[a]);
                } else if a > p {
                    assert(nv[a] == ov[a - 1] && nv[b] == ov[b - 1]);
                } else if a == p {
                    assert(nv[b] == ov[b - 1]);
                    assert(lex_lt(xv.0, ov[p as int].0));
                    if lex_lt(ov[b - 1].0, xv.0) {
                        lemma_lex_trans(ov[b - 1].0, xv.0, ov[p as int].0);
                        lemma_lex_irreflexive(ov[p as int].0);
                    }
                } else {
                    assert(nv[a] == ov[a] && nv[b] == ov[b - 1]);
                }
            }
            lemma_insert_multiset(ov, p as int, xv);
            assert(input.take(c + 1) =~= input.take(c as int).push(xv));
            input.take(c as int).to_multiset_ensures();
        }
        c += 1;
    }
    assert(input.take(n as int) =~= input);
    out
}

// ---- request parameters ----

/// A search request with its parameters resolved.
#[derive(Debug, Clone)]
pub struct ResolvedRequest {
    /// The query, trimmed.
    pub query: String,
    /// The engines to ask.
    pub sources: Vec<String>,
    /// Results per page.
    pub max: usize,
    /// Results skipped.
    pub offset: usize,
}

/// The trimmed pieces of a comma-separated list that are not empty.
pub open spec fn listed_ids(pieces: Seq<Seq<char>>) -> Seq<Seq<char>>
    decreases pieces.len(),
{
    if pieces.len() == 0 {
        seq![]
    } else {
        let p = listed_ids(pieces.drop_last());
        let t = trim(pieces.last());
        if t.len() == 0 {
            p
        } else {
            p.push(t)
        }
    }
}

/// The engines a request asks: the `sources` parameter when it is not
/// blank, else the enabled built-in engines followed by the custom ones.
pub open spec fn request_sources(
    sources: Option<Seq<char>>,
    enabled: Seq<Seq<char>>,
    custom: Seq<Seq<char>>,
) -> Seq<Seq<char>> {
    match sources {
        Some(s) => if trim(s).len() > 0 {
            listed_ids(comma_pieces(s))
        } else {
            enabled + custom
        },
        None => enabled + custom,
    }
}

/// Results per page: the parameter, else the visitor's preference, kept
/// within 1 and the configured maximum (at least 1).
pub open spec fn request_max(max: Option<usize>, per_page: usize, max_results: usize) -> int {
    let m = match max {
        Some(m) => m as int,
        None => per_page as int,
    };
    let hi = if max_results < 1 {
        1
    } else {
        max_results as int
    };
    if m < 1 {
        1
    } else if m > hi {
        hi
    } else {
        m
    }
}

/// The engine ids of a comma-separated list: each piece trimmed, blank
/// pieces dropped.
pub fn listed_ids_of(s: &str) -> (r: Vec<String>)
    ensures
        strings_view(r@) == listed_ids(comma_pieces(s@)),
{
    let pieces = comma_split(s);
    let ghost pv = pieces@.map_values(|v: Vec<char>| v@);
    let mut out: Vec<String> = Vec::new();
    let mut i: usize = 0;
    while i < pieces.len()
        invariant
            i <= pieces@.len(),
            pv == pieces@.map_values(|v: Vec<char>| v@),
            pv == comma_pieces(s@),
            strings_view(out@) == listed_ids(pv.take(i as int)),
        decreases pieces.len() - i,
    {
        assert(pv.take(i + 1).drop_last() =~= pv.take(i as int));
        assert(pv.take(i + 1).last() == pieces@[i as int]@);
        let t = trim_chars(&pieces[i]);
        if t.len() > 0 {
            out.push(chars_to_string(t.as_slice()));
        }
        assert(strings_view(out@) =~= listed_ids(pv.take(i + 1)));
        i += 1;
    }
    assert(pv.take(pieces@.len() as int) =~= pv);
    out
}

/// Resolves the parameters of `/api/search` against the visitor's
/// enabled engines, the custom engines and the configured maximum.
pub fn resolve_request(
    q: &crate::models::SearchQuery,
    enabled: &Vec<String>,
    custom: &Vec<String>,
    per_page: usize,
    max_results: usize,
) -> (r: Result<ResolvedRequest, String>)
    ensures
        trim(q.q@).len() == 0 ==> (r matches Err(m) && m@ == "参数 q 不能为空"@),
        trim(q.q@).len() > 0 ==> (r matches Ok(req) && req.query@ == trim(q.q@) && strings_view(
            req.sources@,
        ) == request_sources(opt_view(q.sources), strings_view(enabled@), strings_view(custom@))
            && req.max == request_max(q.max, per_page, max_results) && req.offset == match q.offset {
            Some(o) => o,
            None => 0,
        }),
{
    let query = chars_to_string(trim_chars(&str_chars(q.q.as_str())).as_slice());
    if query.as_str().is_empty() {
        return Err(chars_to_string(str_chars("参数 q 不能为空").as_slice()));
    }
    let explicit = match &q.sources {
        Some(s) => trim_chars(&str_chars(s.as_str())).len() > 0,
        None => false,
    };
    let sources = if explicit {
        match &q.sources {
            Some(s) => listed_ids_of(s.as_str()),
            None => Vec::new(),
        }
    } else {
        let mut ids: Vec<String> = Vec::new();
        let mut i: usize = 0;
        while i < enabled.len()
            invariant
                i <= enabled@.len(),
                ids@.len() == i,
                strings_view(ids@) == strings_view(enabled@).take(i as int),
            decreases enabled.len() - i,
        {
            let ghost prev = ids@;
            ids.push(enabled[i].clone());
            assert forall|k: int| 0 <= k < i + 1 implies #[trigger] strings_view(ids@)[k]
                == strings_view(enabled@).take(i + 1)[k] by {
                if k < i {
                    assert(ids@[k] == prev[k]);
                    assert(strings_view(prev)[k] == strings_view(enabled@).take(i as int)[k]);
                }
            }
            assert(strings_view(ids@) =~= strings_view(enabled@).take(i + 1));
            i += 1;
        }
        assert(strings_view(enabled@).take(enabled@.len() as int) =~= strings_view(enabled@));
        let ghost base = strings_view(ids@);
        let mut j: usize = 0;
        while j < custom.len()
            invariant
                j <= custom@.len(),
                ids@.len() == base.len() + j,
                strings_view(ids@) == base + strings_view(custom@).take(j as int),
            decreases custom.len() - j,
        {
            let ghost prev = ids@;
            ids.push(custom[j].clone());
            assert forall|k: int| 0 <= k < ids@.len() implies #[trigger] strings_view(ids@)[k] == (base
                + strings_view(custom@).take(j + 1))[k] by {
                if k < prev.len() {
                    assert(ids@[k] == prev[k]);
                    assert(strings_view(prev)[k] == (base + strings_view(custom@).take(j as int))[k]);
                }
            }
            assert(strings_view(ids@) =~= base + strings_view(custom@).take(j + 1));
            j += 1;
        }
        assert(strings_view(custom@).take(custom@.len() as int) =~= strings_view(custom@));
        ids
    };
    let m = match q.max {
        Some(m) => m,
        None => per_page,
    };
    let hi = if max_results < 1 {
        1
    } else {
        max_results
    };
    let max = if m < 1 {
        1
    } else if m > hi {
        hi
    } else {
        m
    };
    let offset = match q.offset {
        Some(o) => o,
        None => 0,
    };
    Ok(ResolvedRequest { query, sources, max, offset })
}

} // verus!
