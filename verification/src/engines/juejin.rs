//! Juejin (official JSON search API, `id_type=0`: articles; the API checks
//! the Referer). The application decodes each element of `data` (its
//! `result_model` when there is one) into an [`ArticleRecord`].
use vstd::prelude::*;

use crate::engines::common::{clip, clip_spec, query_encoded, query_url_n, strip_html, strip_html_spec};
use crate::engines::entries::{
    entries_view, opt_entry_view, rank_entries, ranked_entries, Entry, EntryView,
};
use crate::engines::EngineError;
use crate::models::{meta_view, opt_view, results_view, Category, EngineMeta, ResultView, SearchResult};
use crate::text::{chars_to_string, decimal, owned, push_decimal, push_str, str_chars};

verus! {

/// Referer the API requires.
pub const REFERER: &'static str = "https://juejin.cn/search";

/// The fields of one search hit: the top-level ones and their fallbacks
/// under `article_info` (each `None` when missing or not of the expected
/// JSON type).
#[derive(Debug, Clone)]
pub struct ArticleRecord {
    pub title: Option<String>,
    pub info_title: Option<String>,
    pub url: Option<String>,
    pub info_url: Option<String>,
    pub summary: Option<String>,
    pub info_brief: Option<String>,
    pub info_ctime: Option<i64>,
}

/// Plain view of an [`ArticleRecord`].
pub ghost struct ArticleView {
    pub title: Option<Seq<char>>,
    pub info_title: Option<Seq<char>>,
    pub url: Option<Seq<char>>,
    pub info_url: Option<Seq<char>>,
    pub summary: Option<Seq<char>>,
    pub info_brief: Option<Seq<char>>,
    pub info_ctime: Option<i64>,
}

impl View for ArticleRecord {
    type V = ArticleView;

    open spec fn view(&self) -> ArticleView {
        ArticleView {
            title: opt_view(self.title),
            info_title: opt_view(self.info_title),
            url: opt_view(self.url),
            info_url: opt_view(self.info_url),
            summary: opt_view(self.summary),
            info_brief: opt_view(self.info_brief),
            info_ctime: self.info_ctime,
        }
    }
}

pub open spec fn articles_view(v: Seq<ArticleRecord>) -> Seq<ArticleView> {
    v.map_values(|a: ArticleRecord| a@)
}

/// The first of two optional texts that is present, else empty.
pub open spec fn first_text(a: Option<Seq<char>>, b: Option<Seq<char>>) -> Seq<char> {
    match a {
        Some(s) => s,
        None => match b {
            Some(s) => s,
            None => Seq::empty(),
        },
    }
}

fn first_text_of<'a>(a: &'a Option<String>, b: &'a Option<String>) -> (r: &'a str)
    ensures
        r@ == first_text(opt_view(*a), opt_view(*b)),
{
    proof {
        reveal_strlit("");
        assert(""@ =~= Seq::<char>::empty());
    }
    match a {
        Some(s) => s.as_str(),
        None => match b {
            Some(s) => s.as_str(),
            None => "",
        },
    }
}

/// The proleptic Gregorian (year, month, day) of the day `z` days after
/// 1970-01-01 (H. Hinnant's `civil_from_days`).
pub open spec fn civil_from_days(z0: int) -> (int, int, int) {
    let z = z0 + 719468;
    let era = z / 146097;
    let doe = z % 146097;
    let yoe = (doe - doe / 1460 + doe / 36524 - doe / 146096) / 365;
    let y = yoe + era * 400;
    let doy = doe - (365 * yoe + yoe / 4 - yoe / 100);
    let mp = (5 * doy + 2) / 153;
    let d = doy - (153 * mp + 2) / 5 + 1;
    let m = if mp < 10 {
        mp + 3
    } else {
        mp - 9
    };
    (
        if m <= 2 {
            y + 1
        } else {
            y
        },
        m,
        d,
    )
}

/// Whether `y` is a leap year of the Gregorian calendar.
pub open spec fn is_leap_year(y: int) -> bool {
    (y % 4 == 0 && y % 100 != 0) || y % 400 == 0
}

/// Number of days of month `m` of year `y`.
pub open spec fn days_in_month(y: int, m: int) -> int {
    if m == 2 {
        if is_leap_year(y) {
            29
        } else {
            28
        }
    } else if m == 4 || m == 6 || m == 9 || m == 11 {
        30
    } else {
        31
    }
}

/// Every day maps to a valid calendar date: a month from 1 to 12 and a day
/// within that month's length in that year.
pub proof fn law_civil_date_valid(z: int)
    ensures
        ({
            let (y, m, d) = civil_from_days(z);
            1 <= m <= 12 && 1 <= d <= days_in_month(y, m)
        }),
{
    let zz = z + 719468;
    let era = zz / 146097;
    let doe = zz % 146097;
    assert(0 <= doe < 146097);
    let yoe = (doe - doe / 1460 + doe / 36524 - doe / 146096) / 365;
    let doy = doe - (365 * yoe + yoe / 4 - yoe / 100);
    assert(0 <= yoe <= 399);
    assert(0 <= doy <= 365);
    let mp = (5 * doy + 2) / 153;
    assert(0 <= mp <= 11);
    if doy == 365 {
        assert(yoe % 4 == 3);
    }
}

/// The number of days from 1970-01-01 to the proleptic Gregorian date
/// (y, m, d) (H. Hinnant's `days_from_civil`).
pub open spec fn days_from_civil(y0: int, m: int, d: int) -> int {
    let y = if m <= 2 {
        y0 - 1
    } else {
        y0
    };
    let era = y / 400;
    let yoe = y - era * 400;
    let mp = if m > 2 {
        m - 3
    } else {
        m + 9
    };
    let doy = (153 * mp + 2) / 5 + d - 1;
    let doe = yoe * 365 + yoe / 4 - yoe / 100 + doy;
    era * 146097 + doe - 719468
}

/// The calendar date that follows (y, m, d).
pub open spec fn next_date(y: int, m: int, d: int) -> (int, int, int) {
    if d < days_in_month(y, m) {
        (y, m, d + 1)
    } else if m < 12 {
        (y, m + 1, 1)
    } else {
        (y + 1, 1, 1)
    }
}

/// Counting the days back from the date of day `z` gives `z`: the date of a
/// Unix day identifies that day.
pub proof fn law_civil_round_trip(z: int)
    ensures
        ({
            let (y, m, d) = civil_from_days(z);
            days_from_civil(y, m, d) == z
        }),
{
    let zz = z + 719468;
    let era = zz / 146097;
    let doe = zz % 146097;
    assert(0 <= doe < 146097);
    let yoe = (doe - doe / 1460 + doe / 36524 - doe / 146096) / 365;
    let doy = doe - (365 * yoe + yoe / 4 - yoe / 100);
    assert(0 <= yoe <= 399);
    assert(0 <= doy <= 365);
    let mp = (5 * doy + 2) / 153;
    assert(0 <= mp <= 11);
    assert(doy == (153 * mp + 2) / 5 + (doy - (153 * mp + 2) / 5 + 1) - 1);
}

proof fn lemma_next_date_days(y: int, m: int, d: int)
    requires
        1 <= m <= 12,
        1 <= d <= days_in_month(y, m),
    ensures
        ({
            let (y2, m2, d2) = next_date(y, m, d);
            days_from_civil(y2, m2, d2) == days_from_civil(y, m, d) + 1
        }),
{
    if d < days_in_month(y, m) {
    } else if m == 2 {
        let p = y - 1;
        assert(p / 400 * 400 + p % 400 == p);
        if p % 400 == 399 {
            assert(y / 400 == p / 400 + 1);
        } else {
            assert(y / 400 == p / 400);
        }
    } else if m < 12 {
    } else {
    }
}

proof fn lemma_civil_of_days(y: int, m: int, d: int)
    requires
        1 <= m <= 12,
        1 <= d <= days_in_month(y, m),
    ensures
        civil_from_days(days_from_civil(y, m, d)) == (y, m, d),
{
    let yy = if m <= 2 {
        y - 1
    } else {
        y
    };
    let era = yy / 400;
    let yoe = yy - era * 400;
    assert(0 <= yoe < 400);
    let mp = if m > 2 {
        m - 3
    } else {
        m + 9
    };
    let doy = (153 * mp + 2) / 5 + d - 1;
    assert(0 <= doy <= 365);
    let doe = yoe * 365 + yoe / 4 - yoe / 100 + doy;
    assert(0 <= doe < 146097);
    let z = era * 146097 + doe - 719468;
    assert((z + 719468) / 146097 == era);
    assert((z + 719468) % 146097 == doe);
}

/// The day after day `z` has the date that follows the date of `z`; with
/// 1970-01-01 as day 0, the dates run through the calendar.
#[verifier::rlimit(40)]
pub proof fn law_civil_next_day(z: int)
    ensures
        civil_from_days(0) == (1970int, 1int, 1int),
        ({
            let (y, m, d) = civil_from_days(z);
            civil_from_days(z + 1) == next_date(y, m, d)
        }),
{
    assert(civil_from_days(0) == (1970int, 1int, 1int)) by {
        lemma_civil_of_days(1970, 1, 1);
    }
    let t = civil_from_days(z);
    law_civil_date_valid(z);
    law_civil_round_trip(z);
    lemma_next_date_days(t.0, t.1, t.2);
    let n = next_date(t.0, t.1, t.2);
    assert(1 <= n.1 <= 12 && 1 <= n.2 <= days_in_month(n.0, n.1));
    lemma_civil_of_days(n.0, n.1, n.2);
}

/// `n` zero characters.
pub open spec fn zeros(n: int) -> Seq<char> {
    Seq::new(
        if n > 0 {
            n as nat
        } else {
            0
        },
        |i: int| '0',
    )
}

/// `n` written with at least `width` characters, zero-padded after the
/// sign (`format!("{n:0width$}")`).
pub open spec fn padded_num(n: int, width: int) -> Seq<char> {
    if n < 0 {
        seq!['-'] + zeros(width - 1 - decimal((-n) as nat).len()) + decimal((-n) as nat)
    } else {
        zeros(width - decimal(n as nat).len()) + decimal(n as nat)
    }
}

/// "YYYY-MM-DD" of a Unix time in seconds (UTC).
pub open spec fn date_text(secs: int) -> Seq<char> {
    let (y, m, d) = civil_from_days(secs / 86400);
    padded_num(y, 4) + seq!['-'] + padded_num(m, 2) + seq!['-'] + padded_num(d, 2)
}

fn push_padded(v: &mut Vec<char>, n: i64, width: usize)
    requires
        width >= 1,
    ensures
        final(v)@ == old(v)@ + padded_num(n as int, width as int),
{
    let ghost start = v@;
    let mut digits: Vec<char> = Vec::new();
    let w: usize;
    if n < 0 {
        v.push('-');
        let m: u64 = ((-(n + 1)) as u64) + 1;
        assert(m == -n);
        push_decimal(&mut digits, m);
        w = width - 1;
    } else {
        push_decimal(&mut digits, n as u64);
        w = width;
    }
    assert(digits@ =~= decimal(if n < 0 { (-n) as nat } else { n as nat }));
    let ghost mid = v@;
    let pad: usize = if digits.len() < w {
        w - digits.len()
    } else {
        0
    };
    let mut k: usize = 0;
    while k < pad
        invariant
            k <= pad,
            v@ == mid + zeros(k as int),
        decreases pad - k,
    {
        v.push('0');
        k += 1;
        assert(v@ =~= mid + zeros(k as int));
    }
    assert(zeros(pad as int) =~= zeros(w - digits@.len()));
    let ghost before = v@;
    let mut j: usize = 0;
    while j < digits.len()
        invariant
            j <= digits@.len(),
            v@ == before + digits@.take(j as int),
        decreases digits.len() - j,
    {
        v.push(digits[j]);
        j += 1;
        assert(v@ =~= before + digits@.take(j as int));
    }
    assert(digits@.take(digits@.len() as int) =~= digits@);
    proof {
        if n < 0 {
            assert(v@ =~= start + (seq!['-'] + zeros(width - 1 - digits@.len()) + digits@));
        } else {
            assert(v@ =~= start + (zeros(width - digits@.len()) + digits@));
        }
    }
}

fn ediv(a: i64, b: i64) -> (r: i64)
    requires
        b > 0,
    ensures
        r == a / b,
{
    let q = a.checked_div_euclid(b);
    assert(i64::MIN <= a / b <= i64::MAX) by (nonlinear_arith)
        requires
            b > 0,
            i64::MIN <= a <= i64::MAX,
    ;
    q.unwrap()
}

fn emod(a: i64, b: i64) -> (r: i64)
    requires
        b > 0,
    ensures
        r == a % b,
{
    a.checked_rem_euclid(b).unwrap()
}

/// Converts Unix seconds to "YYYY-MM-DD" (UTC).
pub fn unix_to_date(secs: i64) -> (r: Option<String>)
    ensures
        r matches Some(s) && s@ == date_text(secs as int),
{
    let days = ediv(secs, 86400);
    assert(-106751991167301 <= days <= 106751991167300) by (nonlinear_arith)
        requires
            days == secs / 86400,
            i64::MIN <= secs <= i64::MAX,
    ;
    let z = days + 719468;
    let era = ediv(z, 146097);
    let doe = emod(z, 146097);
    assert(-800000000 <= era <= 800000000) by (nonlinear_arith)
        requires
            era == z / 146097,
            -106751991167301 + 719468 <= z <= 106751991167300 + 719468,
    ;
    let yoe = ediv(doe - ediv(doe, 1460) + ediv(doe, 36524) - ediv(doe, 146096), 365);
    let y = yoe + era * 400;
    let doy = doe - (365 * yoe + ediv(yoe, 4) - ediv(yoe, 100));
    let mp = ediv(5 * doy + 2, 153);
    let d = doy - ediv(153 * mp + 2, 5) + 1;
    let m = if mp < 10 {
        mp + 3
    } else {
        mp - 9
    };
    let year = if m <= 2 {
        y + 1
    } else {
        y
    };
    let mut v: Vec<char> = Vec::new();
    push_padded(&mut v, year, 4);
    v.push('-');
    push_padded(&mut v, m, 2);
    v.push('-');
    push_padded(&mut v, d, 2);
    Some(chars_to_string(v.as_slice()))
}

pub struct Juejin;

impl Juejin {
    /// Engine metadata.
    pub fn meta(&self) -> (r: EngineMeta)
        ensures
            meta_view(r) == ("juejin"@, "掘金"@, Category::Code, false),
    {
        EngineMeta::new("juejin", "掘金", Category::Code, false)
    }

    pub open spec fn url_spec(query: Seq<char>, max: nat) -> Seq<char> {
        "https://api.juejin.cn/search_api/v1/search?query="@ + query_encoded(query)
            + "&id_type=0&sort_type=0&page=0&page_size="@ + decimal(
            if max < 20 {
                max
            } else {
                20
            },
        )
    }

    /// The API request URL, asking for at most 20 hits.
    pub fn search_url(&self, query: &str, max: usize) -> (r: String)
        ensures
            r@ == Self::url_spec(query@, max as nat),
    {
        let n: usize = if max < 20 {
            max
        } else {
            20
        };
        proof {
            reveal_strlit("");
            assert(""@ =~= Seq::<char>::empty());
        }
        query_url_n(
            "https://api.juejin.cn/search_api/v1/search?query=",
            query,
            "&id_type=0&sort_type=0&page=0&page_size=",
            n as u64,
            "",
        )
    }

    /// The error a response status gives by itself (any status outside 2xx).
    pub fn status_error(&self, status: u16) -> (r: Option<EngineError>)
        ensures
            200 <= status <= 299 ==> r is None,
            !(200 <= status <= 299) ==> (r matches Some(EngineError::Http(m)) && m@ == "HTTP "@
                + decimal(status as nat)),
    {
        if 200 <= status && status <= 299 {
            return None;
        }
        let mut v = str_chars("HTTP ");
        push_decimal(&mut v, status as u64);
        Some(EngineError::Http(chars_to_string(v.as_slice())))
    }

    /// The entry a hit makes (none without a title or a URL).
    pub open spec fn entry_spec(a: ArticleView) -> Option<EntryView> {
        let title = first_text(a.title, a.info_title);
        let url = first_text(a.url, a.info_url);
        if title.len() == 0 || url.len() == 0 {
            None
        } else {
            Some(
                (
                    clip_spec(title, 200),
                    url,
                    clip_spec(strip_html_spec(first_text(a.summary, a.info_brief)), 300),
                    match a.info_ctime {
                        Some(t) => Some(date_text(t as int)),
                        None => None,
                    },
                ),
            )
        }
    }

    pub open spec fn entries_of(v: Seq<ArticleView>) -> Seq<Option<EntryView>> {
        v.map_values(|a: ArticleView| Self::entry_spec(a))
    }

    fn entry_of(a: &ArticleRecord) -> (e: Option<Entry>)
        ensures
            opt_entry_view(e) == Self::entry_spec(a@),
    {
        let title = first_text_of(&a.title, &a.info_title);
        let url = first_text_of(&a.url, &a.info_url);
        if title.is_empty() || url.is_empty() {
            return None;
        }
        let snippet = strip_html(first_text_of(&a.summary, &a.info_brief));
        let published = match a.info_ctime {
            Some(t) => unix_to_date(t),
            None => None,
        };
        Some(Entry { title: clip(title, 200), url: owned(url), snippet: clip(snippet.as_str(), 300), published })
    }

    /// Each result is made from one article of the response, ranked by its
    /// index `k` in the list: its title (else the info title) as title, its
    /// URL (else the info URL) as link, both non-empty, and the plain text
    /// of its summary (else the brief) as snippet.
    pub proof fn law_results_from_records(items: Seq<ArticleView>, max: nat)

        ensures
            crate::engines::entries::ranked_entries(Self::entries_of(items), max, "juejin"@, true).len() <= max,
            forall|i: int|
                #![trigger crate::engines::entries::ranked_entries(Self::entries_of(items), max, "juejin"@, true)[i]]
                0 <= i < crate::engines::entries::ranked_entries(Self::entries_of(items), max, "juejin"@, true).len() ==> {
                    let rs = crate::engines::entries::ranked_entries(Self::entries_of(items), max, "juejin"@, true);
                    &&& rs[i].source == "juejin"@
                    &&& exists|k: int| #![trigger items[k]] 0 <= k < items.len() && (first_text(items[k].title, items[k].info_title).len() > 0 && first_text(items[k].url, items[k].info_url).len() > 0
                    && rs[i].title == crate::models::clean_title_spec(crate::engines::common::clip_spec(first_text(items[k].title, items[k].info_title), 200))
                    && rs[i].url == first_text(items[k].url, items[k].info_url) && rs[i].rank == k
                    && rs[i].snippet == crate::engines::common::clip_spec(strip_html_spec(first_text(items[k].summary, items[k].info_brief)), 300))
                },
    {
        let es = Self::entries_of(items);
        crate::engines::entries::lemma_ranked_entries_from(es, max, "juejin"@, true);
        let rs = crate::engines::entries::ranked_entries(es, max, "juejin"@, true);
        assert forall|i: int| #![trigger rs[i]] 0 <= i < rs.len() implies rs[i].source == "juejin"@
            && exists|k: int| #![trigger items[k]] 0 <= k < items.len() && (first_text(items[k].title, items[k].info_title).len() > 0 && first_text(items[k].url, items[k].info_url).len() > 0
                    && rs[i].title == crate::models::clean_title_spec(crate::engines::common::clip_spec(first_text(items[k].title, items[k].info_title), 200))
                    && rs[i].url == first_text(items[k].url, items[k].info_url) && rs[i].rank == k
                    && rs[i].snippet == crate::engines::common::clip_spec(strip_html_spec(first_text(items[k].summary, items[k].info_brief)), 300)) by {
            let k = choose|k: int|
                #![trigger es[k]]
                0 <= k < es.len() && (es[k] matches Some(e) && rs[i] == crate::engines::entries::entry_result(
                    e,
                    "juejin"@,
                    if true {
                        k as nat
                    } else {
                        i as nat
                    },
                ));
            assert(0 <= k < items.len());
        }
    }

    /// No usable record is lost: when `max` is at least the number of
    /// records, every article with a non-empty title and link yields a result made from it.
    pub proof fn law_records_give_results(items: Seq<ArticleView>, max: nat)
        requires
            max >= items.len(),
        ensures
            forall|k: int|
                #![trigger items[k]]
                0 <= k < items.len() ==> (first_text(items[k].title, items[k].info_title).len() > 0 && first_text(items[k].url, items[k].info_url).len() > 0 ==> exists|i: int|
                    #![trigger crate::engines::entries::ranked_entries(Self::entries_of(items), max, "juejin"@, true)[i]] 0 <= i < crate::engines::entries::ranked_entries(Self::entries_of(items), max, "juejin"@, true).len() && crate::engines::entries::ranked_entries(Self::entries_of(items), max, "juejin"@, true)[i].title == crate::models::clean_title_spec(crate::engines::common::clip_spec(first_text(items[k].title, items[k].info_title), 200))
                        && crate::engines::entries::ranked_entries(Self::entries_of(items), max, "juejin"@, true)[i].url == first_text(items[k].url, items[k].info_url) && crate::engines::entries::ranked_entries(Self::entries_of(items), max, "juejin"@, true)[i].rank == k),
    {
        let es = Self::entries_of(items);
        crate::engines::entries::lemma_entries_to_results(es, max, "juejin"@, true);
        let rs = crate::engines::entries::ranked_entries(Self::entries_of(items), max, "juejin"@, true);
        assert forall|k: int| #![trigger items[k]] 0 <= k < items.len() implies (first_text(items[k].title, items[k].info_title).len() > 0 && first_text(items[k].url, items[k].info_url).len() > 0 ==> exists|i: int|
                    #![trigger rs[i]] 0 <= i < rs.len() && rs[i].title == crate::models::clean_title_spec(crate::engines::common::clip_spec(first_text(items[k].title, items[k].info_title), 200))
                        && rs[i].url == first_text(items[k].url, items[k].info_url) && rs[i].rank == k) by {
            assert(es[k] == es[k]);
        }
    }

    /// The results of the hits of a response, ranked by their index in the
    /// list, at most `max`.
    pub fn results(&self, items: &Vec<ArticleRecord>, max: usize) -> (r: Vec<SearchResult>)
        ensures
            results_view(r@) == ranked_entries(
                Self::entries_of(articles_view(items@)),
                max as nat,
                "juejin"@,
                true,
            ),
    {
        let ghost av = articles_view(items@);
        let mut es: Vec<Option<Entry>> = Vec::new();
        let mut i: usize = 0;
        while i < items.len()
            invariant
                i <= items@.len(),
                av == articles_view(items@),
                es@.len() == i,
                entries_view(es@) == Self::entries_of(av.take(i as int)),
            decreases items.len() - i,
        {
            let e = Self::entry_of(&items[i]);
            let ghost prev = es@;
            es.push(e);
            assert forall|k: int| 0 <= k < i + 1 implies #[trigger] entries_view(es@)[k]
                == Self::entries_of(av.take(i + 1))[k] by {
                if k < i {
                    assert(es@[k] == prev[k]);
                    assert(entries_view(prev)[k] == Self::entries_of(av.take(i as int))[k]);
                }
            }
            assert(entries_view(es@) =~= Self::entries_of(av.take(i + 1)));
            i += 1;
        }
        assert(av.take(items@.len() as int) =~= av);
        rank_entries(es, "juejin", max, true)
    }

    /// The results, or this engine's error when there are none.
    pub fn finish(&self, out: Vec<SearchResult>) -> (r: Result<Vec<SearchResult>, EngineError>)
        ensures
            out@.len() > 0 ==> r == Ok::<Vec<SearchResult>, EngineError>(out),
            out@.len() == 0 ==> (r matches Err(EngineError::Parse(m)) && m@ == "掘金无结果或接口变更"@),
    {
        if out.len() == 0 {
            return Err(EngineError::Parse(owned("掘金无结果或接口变更")));
        }
        Ok(out)
    }
}

} // verus!
