//! User preferences (SearXNG style): interface settings plus a per-engine
//! switch and weight, kept in the `educe_prefs` cookie (percent-encoded
//! JSON, written and read by the application). No login is needed.
//!
//! Per-engine preferences are a table keyed by engine id in which no id
//! occurs twice ([`UserPrefs::wf`]); its view is a map from id to preference.
//! Weights are the IEEE-754 bit patterns of the `f64` values.
use vstd::prelude::*;

use crate::config::{lookup, lookup_in, AppConfig};
use crate::engines::{all_metas, all_metas_spec, builtin_ids};
use crate::models::{meta_view, EngineMeta};
use crate::engines::common::{law_percent_round_trip, pct_encode_bytes, percent_decoded, query_encoded, hex_digit, is_alnum_byte};
use crate::text::{chars_eq, chars_to_string, owned, push_signed_decimal, push_str, signed_decimal, slice_chars, str_chars, str_eq, trim, trim_start, trim_end, is_ws, find, first_match_from, matches_at};
use vstd::string::StrSliceExecFns;

verus! {

/// Cookie name.
pub const PREFS_COOKIE: &'static str = "educe_prefs";

/// Cookie lifetime (seconds): one year.
pub const PREFS_MAX_AGE: i64 = 365 * 24 * 3600;

/// Preference for one engine.
#[derive(Debug, Clone, Copy)]
pub struct EnginePref {
    pub enabled: bool,
    /// Weight override (`f64::to_bits`); `None`: the configured weight.
    pub weight: Option<u64>,
}

/// No engine id occurs twice in the table.
pub open spec fn unique_keys(es: Seq<(String, EnginePref)>) -> bool {
    forall|i: int, j: int| 0 <= i < j < es.len() ==> #[trigger] es[i].0@ != #[trigger] es[j].0@
}

/// The table as a map from engine id to preference.
pub open spec fn engines_map(es: Seq<(String, EnginePref)>) -> Map<Seq<char>, EnginePref> {
    Map::new(|k: Seq<char>| lookup(es, k) is Some, |k: Seq<char>| lookup(es, k)->0)
}

pub proof fn lemma_lookup_push(s: Seq<(String, EnginePref)>, x: (String, EnginePref), k: Seq<char>)
    ensures
        lookup(s.push(x), k) == match lookup(s, k) {
            Some(v) => Some(v),
            None => if x.0@ == k {
                Some(x.1)
            } else {
                None
            },
        },
    decreases s.len(),
{
    if s.len() == 0 {
        assert(s.push(x).drop_first() =~= s);
    } else {
        assert(s.push(x).drop_first() =~= s.drop_first().push(x));
        lemma_lookup_push(s.drop_first(), x, k);
    }
}

pub proof fn lemma_lookup_update(
    s: Seq<(String, EnginePref)>,
    j: int,
    x: (String, EnginePref),
    k: Seq<char>,
)
    requires
        unique_keys(s),
        0 <= j < s.len(),
        s[j].0@ == x.0@,
    ensures
        lookup(s.update(j, x), k) == if k == x.0@ {
            Some(x.1)
        } else {
            lookup(s, k)
        },
    decreases s.len(),
{
    if j == 0 {
        assert(s.update(j, x).drop_first() =~= s.drop_first());
    } else {
        assert(s.update(j, x).drop_first() =~= s.drop_first().update(j - 1, x));
        assert(s[0].0@ != s[j].0@);
        lemma_lookup_update(s.drop_first(), j - 1, x, k);
    }
}

pub proof fn lemma_lookup_none(s: Seq<(String, EnginePref)>, k: Seq<char>, i: int)
    requires
        lookup(s, k) is None,
        0 <= i < s.len(),
    ensures
        s[i].0@ != k,
    decreases s.len(),
{
    if i > 0 {
        lemma_lookup_none(s.drop_first(), k, i - 1);
    }
}

fn find_key(es: &Vec<(String, EnginePref)>, id: &str) -> (r: Option<usize>)
    ensures
        match r {
            Some(j) => j < es@.len() && es@[j as int].0@ == id@ && lookup(es@, id@) == Some(
                es@[j as int].1,
            ),
            None => lookup(es@, id@) is None,
        },
{
    let mut i: usize = 0;
    assert(es@.skip(0) =~= es@);
    while i < es.len()
        invariant
            i <= es@.len(),
            lookup(es@, id@) == lookup(es@.skip(i as int), id@),
        decreases es.len() - i,
    {
        assert(es@.skip(i as int)[0] == es@[i as int]);
        assert(es@.skip(i as int).drop_first() =~= es@.skip(i + 1));
        if str_eq(es[i].0.as_str(), id) {
            return Some(i);
        }
        i += 1;
    }
    None
}

/// The preferences of one visitor.
#[derive(Debug, Clone)]
pub struct UserPrefs {
    /// Interface language: `zh` or `en`.
    pub lang: String,
    /// Theme: `dark` or `light`.
    pub theme: String,
    /// Accent colour of the interface (empty: the page's own default).
    pub accent: String,
    /// Results per page (default `max` of `/api/search`).
    pub results_per_page: usize,
    /// Whether results open in a new tab.
    pub open_in_new_tab: bool,
    /// Per-source timeout (milliseconds); 0: the configured one.
    pub timeout_ms: u64,
    /// Engine id -> preference.
    pub engines: Vec<(String, EnginePref)>,
}

impl Default for UserPrefs {
    fn default() -> (r: Self)
        ensures
            r.lang@ == "zh"@,
            r.theme@ == "dark"@,
            r.accent@.len() == 0,
            r.results_per_page == 50,
            r.open_in_new_tab,
            r.timeout_ms == 0,
            r.engines@.len() == 0,
    {
        UserPrefs {
            lang: owned("zh"),
            theme: owned("dark"),
            accent: String::new(),
            results_per_page: 50,
            open_in_new_tab: true,
            timeout_ms: 0,
            engines: Vec::new(),
        }
    }
}

/// Whether an engine is on: its preference, or on when it has none.
pub open spec fn engine_on(m: Map<Seq<char>, EnginePref>, id: Seq<char>) -> bool {
    if m.contains_key(id) {
        m[id].enabled
    } else {
        true
    }
}

/// The ids among `ids` that are on, in order.
pub open spec fn enabled_ids(ids: Seq<Seq<char>>, m: Map<Seq<char>, EnginePref>) -> Seq<Seq<char>>
    decreases ids.len(),
{
    if ids.len() == 0 {
        seq![]
    } else {
        let prev = enabled_ids(ids.drop_last(), m);
        if engine_on(m, ids.last()) {
            prev.push(ids.last())
        } else {
            prev
        }
    }
}

/// Engines are on by default: an id of `ids` is listed among the enabled
/// ones exactly when the table has no preference for it or its preference
/// enables it; nothing else is listed, and an empty table lists every id.
pub proof fn law_engines_on_by_default(ids: Seq<Seq<char>>, m: Map<Seq<char>, EnginePref>)
    ensures
        forall|id: Seq<char>|
            #[trigger] ids.contains(id) ==> (enabled_ids(ids, m).contains(id) <==> (!m.contains_key(id)
                || m[id].enabled)),
        forall|j: int|
            0 <= j < enabled_ids(ids, m).len() ==> ids.contains(#[trigger] enabled_ids(ids, m)[j]),
        m.dom().len() == 0 && m.dom().finite() ==> enabled_ids(ids, m) == ids,
    decreases ids.len(),
{
    if ids.len() > 0 {
        let p = ids.drop_last();
        let l = ids.last();
        law_engines_on_by_default(p, m);
        let e = enabled_ids(ids, m);
        let ep = enabled_ids(p, m);
        assert forall|id: Seq<char>| #[trigger] ids.contains(id) implies (e.contains(id) <==> (
        !m.contains_key(id) || m[id].enabled)) by {
            let on = !m.contains_key(id) || m[id].enabled;
            if id == l {
                if on {
                    assert(e[e.len() - 1] == l);
                } else {
                    if p.contains(id) {
                        assert(!ep.contains(id));
                    } else {
                        assert forall|j: int| 0 <= j < ep.len() implies #[trigger] ep[j] != id by {
                            assert(p.contains(ep[j]));
                        }
                    }
                }
            } else {
                let k = choose|k: int| 0 <= k < ids.len() && ids[k] == id;
                assert(p[k] == id);
                assert(p.contains(id));
                if ep.contains(id) {
                    let j = choose|j: int| 0 <= j < ep.len() && ep[j] == id;
                    assert(e[j] == id);
                }
                if e.contains(id) {
                    let j = choose|j: int| 0 <= j < e.len() && e[j] == id;
                    if j < ep.len() {
                        assert(ep[j] == id);
                    }
                }
            }
        }
        assert forall|j: int| 0 <= j < e.len() implies ids.contains(#[trigger] e[j]) by {
            if j < ep.len() {
                assert(e[j] == ep[j]);
                assert(p.contains(ep[j]));
                let k = choose|k: int| 0 <= k < p.len() && p[k] == ep[j];
                assert(ids[k] == ep[j]);
            } else {
                assert(ids[ids.len() - 1] == e[j]);
            }
        }
        if m.dom().len() == 0 && m.dom().finite() {
            assert(!m.dom().contains(l)) by {
                if m.dom().contains(l) {
                    vstd::set_lib::lemma_set_empty_equivalency_len(m.dom());
                }
            }
            assert(ids =~= p.push(l));
        }
    }
}

/// The enabled ids keep the order of `ids`: those enabled among the first
/// `n` ids are the first ones listed.
pub proof fn law_enabled_ids_keep_order(ids: Seq<Seq<char>>, m: Map<Seq<char>, EnginePref>)
    ensures
        forall|n: int|
            0 <= n <= ids.len() ==> #[trigger] enabled_ids(ids.take(n), m).len() <= enabled_ids(ids, m).len()
                && enabled_ids(ids, m).take(enabled_ids(ids.take(n), m).len() as int) == enabled_ids(
                ids.take(n),
                m,
            ),
    decreases ids.len(),
{
    if ids.len() > 0 {
        let p = ids.drop_last();
        law_enabled_ids_keep_order(p, m);
        let e = enabled_ids(ids, m);
        let ep = enabled_ids(p, m);
        assert forall|n: int| 0 <= n <= ids.len() implies #[trigger] enabled_ids(ids.take(n), m).len()
            <= e.len() && e.take(enabled_ids(ids.take(n), m).len() as int) == enabled_ids(ids.take(n), m) by {
            if n == ids.len() {
                assert(ids.take(n) =~= ids);
                assert(e.take(e.len() as int) =~= e);
            } else {
                assert(ids.take(n) =~= p.take(n));
                let l = enabled_ids(p.take(n), m).len() as int;
                assert(ep.take(l) =~= e.take(l));
            }
        }
    }
}

/// Setting one engine's preference (as [`UserPrefs::set_engine`] does)
/// lists that engine exactly when the new preference enables it, and
/// leaves every other engine listed or not as before.
pub proof fn law_set_engine_listing(
    ids: Seq<Seq<char>>,
    m: Map<Seq<char>, EnginePref>,
    id: Seq<char>,
    pref: EnginePref,
)
    ensures
        forall|x: Seq<char>|
            #[trigger] ids.contains(x) ==> (enabled_ids(ids, m.insert(id, pref)).contains(x) <==> if x == id {
                pref.enabled
            } else {
                enabled_ids(ids, m).contains(x)
            }),
{
    law_engines_on_by_default(ids, m);
    law_engines_on_by_default(ids, m.insert(id, pref));
}

/// The explicit weight overrides of a table, in table order.
pub open spec fn overrides_of(es: Seq<(String, EnginePref)>) -> Seq<(Seq<char>, u64)>
    decreases es.len(),
{
    if es.len() == 0 {
        seq![]
    } else {
        let prev = overrides_of(es.drop_last());
        match es.last().1.weight {
            Some(w) => prev.push((es.last().0@, w)),
            None => prev,
        }
    }
}

proof fn lemma_lookup_found(s: Seq<(String, EnginePref)>, k: Seq<char>)
    ensures
        lookup(s, k) is Some ==> exists|i: int| 0 <= i < s.len() && #[trigger] s[i].0@ == k,
    decreases s.len(),
{
    if s.len() > 0 && s[0].0@ != k {
        lemma_lookup_found(s.drop_first(), k);
        if lookup(s, k) is Some {
            let i = choose|i: int| 0 <= i < s.drop_first().len() && #[trigger] s.drop_first()[i].0@ == k;
            assert(s[i + 1] == s.drop_first()[i]);
        }
    }
}

/// The weight overrides are exactly the weights set in the table: an
/// (id, weight) pair is listed when and only when the table's preference
/// for that id sets that weight.
pub proof fn law_overrides_are_set_weights(es: Seq<(String, EnginePref)>)
    requires
        unique_keys(es),
    ensures
        forall|id: Seq<char>, w: u64|
            #[trigger] overrides_of(es).contains((id, w)) <==> (lookup(es, id) matches Some(p)
                && p.weight == Some(w)),
    decreases es.len(),
{
    if es.len() > 0 {
        let p = es.drop_last();
        let x = es.last();
        assert(unique_keys(p)) by {
            assert forall|i: int, j: int| 0 <= i < j < p.len() implies #[trigger] p[i].0@ != #[trigger] p[j].0@ by {
                assert(p[i] == es[i] && p[j] == es[j]);
            }
        }
        law_overrides_are_set_weights(p);
        assert(es =~= p.push(x));
        let prev = overrides_of(p);
        assert forall|id: Seq<char>, w: u64|
            #[trigger] overrides_of(es).contains((id, w)) <==> (lookup(es, id) matches Some(q)
                && q.weight == Some(w)) by {
            lemma_lookup_push(p, x, id);
            lemma_lookup_found(p, id);
            if id == x.0@ {
                assert(lookup(p, id) is None) by {
                    if lookup(p, id) is Some {
                        let i = choose|i: int| 0 <= i < p.len() && #[trigger] p[i].0@ == id;
                        assert(es[i] == p[i]);
                        assert(es[es.len() - 1] == x);
                    }
                }
                assert(!prev.contains((id, w)));
            }
            match x.1.weight {
                Some(v) => {
                    let o = prev.push((x.0@, v));
                    assert(overrides_of(es) == o);
                    if o.contains((id, w)) && !prev.contains((id, w)) {
                        let n = choose|n: int| 0 <= n < o.len() && o[n] == (id, w);
                        if n < prev.len() {
                            assert(o[n] == prev[n]);
                        }
                    }
                    if prev.contains((id, w)) {
                        let n = choose|n: int| 0 <= n < prev.len() && prev[n] == (id, w);
                        assert(o[n] == prev[n]);
                    }
                    if id == x.0@ && w == v {
                        assert(o[o.len() - 1] == (id, w));
                    }
                },
                None => {},
            }
        }
    }
}

pub open spec fn pairs_view(v: Seq<(String, u64)>) -> Seq<(Seq<char>, u64)> {
    v.map_values(|p: (String, u64)| (p.0@, p.1))
}

pub open spec fn strings_view(v: Seq<String>) -> Seq<Seq<char>> {
    v.map_values(|s: String| s@)
}

/// `clamp(n, lo, hi)`.
pub open spec fn clamped(n: int, lo: int, hi: int) -> int {
    if n < lo {
        lo
    } else if n > hi {
        hi
    } else {
        n
    }
}

impl UserPrefs {
    /// No engine id occurs twice.
    pub open spec fn wf(&self) -> bool {
        unique_keys(self.engines@)
    }

    /// The per-engine preferences as a map.
    pub open spec fn engine_map(&self) -> Map<Seq<char>, EnginePref> {
        engines_map(self.engines@)
    }

    /// Sets the preference of one engine.
    pub fn set_engine(&mut self, id: String, pref: EnginePref)
        requires
            old(self).wf(),
        ensures
            final(self).wf(),
            final(self).engine_map() == old(self).engine_map().insert(id@, pref),
            final(self).lang == old(self).lang,
            final(self).theme == old(self).theme,
            final(self).accent == old(self).accent,
            final(self).results_per_page == old(self).results_per_page,
            final(self).open_in_new_tab == old(self).open_in_new_tab,
            final(self).timeout_ms == old(self).timeout_ms,
    {
        let ghost s = self.engines@;
        let ghost key = id@;
        match find_key(&self.engines, id.as_str()) {
            Some(j) => {
                let ghost x = (id, pref);
                self.engines.set(j, (id, pref));
                proof {
                    assert(self.engines@ == s.update(j as int, x));
                    assert forall|k: Seq<char>| #[trigger] lookup(self.engines@, k) == if k == key {
                        Some(pref)
                    } else {
                        lookup(s, k)
                    } by {
                        lemma_lookup_update(s, j as int, x, k);
                    }
                    assert forall|a: int, b: int| 0 <= a < b < self.engines@.len() implies #[trigger] self.engines@[a].0@
                        != #[trigger] self.engines@[b].0@ by {
                        if a != j && b != j {
                            assert(s[a].0@ != s[b].0@);
                        }
                    }
                    assert(engines_map(self.engines@) =~= engines_map(s).insert(key, pref));
                }
            },
            None => {
                let ghost x = (id, pref);
                self.engines.push((id, pref));
                proof {
                    assert(self.engines@ == s.push(x));
                    assert forall|k: Seq<char>| #[trigger] lookup(self.engines@, k) == if k == key {
                        Some(pref)
                    } else {
                        lookup(s, k)
                    } by {
                        lemma_lookup_push(s, x, k);
                    }
                    assert forall|a: int, b: int| 0 <= a < b < self.engines@.len() implies #[trigger] self.engines@[a].0@
                        != #[trigger] self.engines@[b].0@ by {
                        if b == s.len() {
                            lemma_lookup_none(s, key, a);
                        } else {
                            assert(s[a].0@ != s[b].0@);
                        }
                    }
                    assert(engines_map(self.engines@) =~= engines_map(s).insert(key, pref));
                }
            },
        }
    }

    /// Overwrites these preferences with `other` (a partial update): empty
    /// texts and zero numbers of `other` leave the current value; its engine
    /// preferences replace or add to the current ones.
    pub fn merge_from(&mut self, other: &UserPrefs)
        requires
            old(self).wf(),
            other.wf(),
        ensures
            final(self).wf(),
            final(self).lang@ == if other.lang@.len() == 0 {
                old(self).lang@
            } else {
                other.lang@
            },
            final(self).theme@ == if other.theme@.len() == 0 {
                old(self).theme@
            } else {
                other.theme@
            },
            final(self).accent@ == if other.accent@.len() == 0 {
                old(self).accent@
            } else {
                other.accent@
            },
            final(self).results_per_page == if other.results_per_page == 0 {
                old(self).results_per_page
            } else {
                other.results_per_page
            },
            final(self).open_in_new_tab == other.open_in_new_tab,
            final(self).timeout_ms == if other.timeout_ms == 0 {
                old(self).timeout_ms
            } else {
                other.timeout_ms
            },
            final(self).engine_map() == old(self).engine_map().union_prefer_right(other.engine_map()),
    {
        if !other.lang.as_str().is_empty() {
            self.lang = other.lang.clone();
        }
        if !other.theme.as_str().is_empty() {
            self.theme = other.theme.clone();
        }
        if !other.accent.as_str().is_empty() {
            self.accent = other.accent.clone();
        }
        if other.results_per_page != 0 {
            self.results_per_page = other.results_per_page;
        }
        self.open_in_new_tab = other.open_in_new_tab;
        if other.timeout_ms != 0 {
            self.timeout_ms = other.timeout_ms;
        }
        let ghost base = self.engine_map();
        let ghost os = other.engines@;
        let ghost lang0 = self.lang;
        let ghost theme0 = self.theme;
        let ghost accent0 = self.accent;
        let ghost rpp0 = self.results_per_page;
        let ghost tab0 = self.open_in_new_tab;
        let ghost timeout0 = self.timeout_ms;
        proof {
            assert(engines_map(os.take(0)) =~= Map::<Seq<char>, EnginePref>::empty());
            assert(base.union_prefer_right(Map::<Seq<char>, EnginePref>::empty()) =~= base);
        }
        let mut i: usize = 0;
        while i < other.engines.len()
            invariant
                i <= os.len(),
                os == other.engines@,
                unique_keys(os),
                self.wf(),
                self.engine_map() == base.union_prefer_right(engines_map(os.take(i as int))),
                self.lang == lang0,
                self.theme == theme0,
                self.accent == accent0,
                self.results_per_page == rpp0,
                self.open_in_new_tab == tab0,
                self.timeout_ms == timeout0,
            decreases other.engines.len() - i,
        {
            let id = other.engines[i].0.clone();
            let pref = other.engines[i].1;
            let ghost x = os[i as int];
            let ghost before = self.engine_map();
            self.set_engine(id, pref);
            proof {
                assert(os.take(i + 1) == os.take(i as int).push(x));
                assert forall|k: Seq<char>| #[trigger] lookup(os.take(i + 1), k) == if k == x.0@ {
                    Some(x.1)
                } else {
                    lookup(os.take(i as int), k)
                } by {
                    lemma_lookup_push(os.take(i as int), x, k);
                    if k == x.0@ {
                        if lookup(os.take(i as int), k) is Some {
                            assert forall|a: int| 0 <= a < i implies os.take(i as int)[a].0@ != k by {
                                assert(os[a].0@ != os[i as int].0@);
                            }
                            lemma_lookup_some_index(os.take(i as int), k);
                        }
                    }
                }
                assert(engines_map(os.take(i + 1)) =~= engines_map(os.take(i as int)).insert(
                    x.0@,
                    x.1,
                ));
                assert(self.engine_map() =~= base.union_prefer_right(engines_map(os.take(i + 1))));
            }
            i += 1;
        }
        proof {
            assert(os.take(os.len() as int) =~= os);
        }
    }

    /// The enabled engines among the built-in ones, in display order.
    pub fn enabled_engine_ids(&self) -> (r: Vec<String>)
        ensures
            strings_view(r@) == enabled_ids(builtin_ids(), self.engine_map()),
    {
        let metas = all_metas();
        let ghost ids = builtin_ids();
        proof {
            assert(metas@.map_values(|m: EngineMeta| meta_view(m).0) =~= ids);
        }
        let mut out: Vec<String> = Vec::new();
        let mut i: usize = 0;
        while i < metas.len()
            invariant
                i <= metas@.len(),
                metas@.map_values(|m: EngineMeta| meta_view(m).0) == ids,
                strings_view(out@) == enabled_ids(ids.take(i as int), self.engine_map()),
            decreases metas.len() - i,
        {
            let id = &metas[i].id;
            assert(ids[i as int] == id@);
            assert(ids.take(i + 1).drop_last() =~= ids.take(i as int));
            let on = match find_key(&self.engines, id.as_str()) {
                Some(j) => self.engines[j].1.enabled,
                None => true,
            };
            assert(on == engine_on(self.engine_map(), id@));
            if on {
                out.push(id.clone());
            }
            assert(strings_view(out@) =~= enabled_ids(ids.take(i + 1), self.engine_map()));
            i += 1;
        }
        assert(ids.take(metas@.len() as int) =~= ids);
        out
    }

    /// The explicit weight overrides, in table order.
    pub fn weight_overrides(&self) -> (r: Vec<(String, u64)>)
        ensures
            pairs_view(r@) == overrides_of(self.engines@),
    {
        let mut out: Vec<(String, u64)> = Vec::new();
        let mut i: usize = 0;
        while i < self.engines.len()
            invariant
                i <= self.engines@.len(),
                pairs_view(out@) == overrides_of(self.engines@.take(i as int)),
            decreases self.engines.len() - i,
        {
            assert(self.engines@.take(i + 1).drop_last() =~= self.engines@.take(i as int));
            match self.engines[i].1.weight {
                Some(w) => {
                    out.push((self.engines[i].0.clone(), w));
                },
                None => {},
            }
            assert(pairs_view(out@) =~= overrides_of(self.engines@.take(i + 1)));
            i += 1;
        }
        assert(self.engines@.take(self.engines@.len() as int) =~= self.engines@);
        out
    }

    /// The per-source timeout in effect (milliseconds).
    pub fn effective_timeout(&self, cfg: &AppConfig) -> (r: u64)
        ensures
            r == if self.timeout_ms > 0 {
                self.timeout_ms
            } else {
                cfg.search.timeout_ms
            },
    {
        if self.timeout_ms > 0 {
            self.timeout_ms
        } else {
            cfg.search.timeout_ms
        }
    }

    /// Default preferences for a configuration: each built-in engine on when
    /// the configuration enables it (all are when it lists none), with its
    /// configured weight; results per page from `max_results`, within 10 to
    /// 100.
    pub fn defaults_from_config(cfg: &AppConfig) -> (r: Self)
        ensures
            r.wf(),
            r.lang@ == "zh"@,
            r.theme@ == "dark"@,
            r.accent@.len() == 0,
            r.open_in_new_tab,
            r.timeout_ms == 0,
            r.results_per_page == clamped(cfg.search.max_results as int, 10, 100),
            forall|k: Seq<char>| #[trigger] r.engine_map().contains_key(k) <==> builtin_ids().contains(k),
            forall|k: Seq<char>|
                builtin_ids().contains(k) ==> #[trigger] r.engine_map()[k] == (EnginePref {
                    enabled: cfg.engines.enabled@.len() == 0 || strings_view(
                        cfg.engines.enabled@,
                    ).contains(k),
                    weight: lookup(cfg.weights@, k),
                }),
    {
        let n = cfg.search.max_results;
        let rpp: usize = if n < 10 {
            10
        } else if n > 100 {
            100
        } else {
            n
        };
        let mut prefs = UserPrefs::default();
        prefs.results_per_page = rpp;
        let metas = all_metas();
        let ghost ids = builtin_ids();
        proof {
            assert(metas@.map_values(|m: EngineMeta| meta_view(m).0) =~= ids);
        }
        let mut i: usize = 0;
        while i < metas.len()
            invariant
                i <= metas@.len(),
                metas@.map_values(|m: EngineMeta| meta_view(m).0) == ids,
                ids.len() == metas@.len(),
                prefs.wf(),
                prefs.lang@ == "zh"@,
                prefs.theme@ == "dark"@,
                prefs.accent@.len() == 0,
                prefs.open_in_new_tab,
                prefs.timeout_ms == 0,
                prefs.results_per_page == rpp,
                rpp == clamped(cfg.search.max_results as int, 10, 100),
                forall|k: Seq<char>| #[trigger] prefs.engine_map().contains_key(k) <==> ids.take(i as int).contains(k),
                forall|k: Seq<char>|
                    ids.take(i as int).contains(k) ==> #[trigger] prefs.engine_map()[k] == (EnginePref {
                        enabled: cfg.engines.enabled@.len() == 0 || strings_view(
                            cfg.engines.enabled@,
                        ).contains(k),
                        weight: lookup(cfg.weights@, k),
                    }),
            decreases metas.len() - i,
        {
            let id = metas[i].id.clone();
            assert(ids[i as int] == id@);
            let enabled = cfg.engines.enabled.len() == 0 || contains_id(&cfg.engines.enabled, id.as_str());
            let weight = lookup_in(&cfg.weights, id.as_str());
            let ghost before = prefs.engine_map();
            let ghost key = id@;
            prefs.set_engine(id, EnginePref { enabled, weight });
            proof {
                let t1 = ids.take(i + 1);
                let t0 = ids.take(i as int);
                assert(t1 =~= t0.push(key));
                assert forall|k: Seq<char>| ids.take(i + 1).contains(k) implies #[trigger] prefs.engine_map()[k]
                    == EnginePref {
                    enabled: cfg.engines.enabled@.len() == 0 || strings_view(
                        cfg.engines.enabled@,
                    ).contains(k),
                    weight: lookup(cfg.weights@, k),
                } by {
                    if k != key {
                        let a = choose|a: int| 0 <= a < t1.len() && #[trigger] t1[a] == k;
                        assert(t0[a] == k);
                    }
                }
                assert(t1[i as int] == key);
                assert forall|k: Seq<char>| #[trigger] prefs.engine_map().contains_key(k) <==> t1.contains(k) by {
                    if t1.contains(k) {
                        if k != key {
                            let a = choose|a: int| 0 <= a < t1.len() && #[trigger] t1[a] == k;
                            assert(t0[a] == k);
                            assert(t0.contains(k));
                        }
                    }
                    if t0.contains(k) {
                        let a = choose|a: int| 0 <= a < t0.len() && #[trigger] t0[a] == k;
                        assert(t1[a] == k);
                    }
                }
                assert(ids.take(i + 1) == t1);
            }
            i += 1;
        }
        assert(ids.take(metas@.len() as int) =~= ids);
        prefs
    }
}

pub proof fn lemma_lookup_some_index(s: Seq<(String, EnginePref)>, k: Seq<char>)
    requires
        lookup(s, k) is Some,
    ensures
        exists|a: int| 0 <= a < s.len() && s[a].0@ == k,
    decreases s.len(),
{
    if s[0].0@ != k {
        lemma_lookup_some_index(s.drop_first(), k);
        let a = choose|a: int| 0 <= a < s.drop_first().len() && s.drop_first()[a].0@ == k;
        assert(s[a + 1].0@ == k);
    }
}

fn contains_id(list: &Vec<String>, id: &str) -> (r: bool)
    ensures
        r == strings_view(list@).contains(id@),
{
    let mut i: usize = 0;
    while i < list.len()
        invariant
            i <= list@.len(),
            forall|a: int| 0 <= a < i ==> list@[a]@ != id@,
        decreases list.len() - i,
    {
        if str_eq(list[i].as_str(), id) {
            assert(strings_view(list@)[i as int] == id@);
            return true;
        }
        i += 1;
    }
    assert forall|a: int| 0 <= a < strings_view(list@).len() implies strings_view(list@)[a] != id@ by {
        assert(list@[a]@ != id@);
    }
    false
}

// ---- cookie header ----

/// The end of the `;`-separated piece that starts at `start`.
pub open spec fn piece_end(h: Seq<char>, start: int) -> int {
    match first_match_from(h, seq![';'], start) {
        Some(j) => j,
        None => h.len() as int,
    }
}

/// The value of a `name=value` piece (both sides trimmed) named `name`.
pub open spec fn piece_value(piece: Seq<char>, name: Seq<char>) -> Option<Seq<char>> {
    let p = trim(piece);
    match find(p, seq!['=']) {
        Some(e) => if trim(p.take(e)) == name {
            Some(trim(p.skip(e + 1)))
        } else {
            None
        },
        None => None,
    }
}

/// The value of the first piece at or after `start` named `name`.
pub open spec fn cookie_from(h: Seq<char>, name: Seq<char>, start: int) -> Option<Seq<char>>
    decreases h.len() + 1 - start,
{
    if start < 0 || start > h.len() {
        None
    } else {
        let end = piece_end(h, start);
        if end < start || end > h.len() {
            None
        } else {
            match piece_value(h.subrange(start, end), name) {
                Some(v) => Some(v),
                None => if end >= h.len() {
                    None
                } else {
                    cookie_from(h, name, end + 1)
                },
            }
        }
    }
}

/// The value of cookie `name` in a `Cookie` request header: the first
/// `;`-separated piece of the form `name=value` (spaces around either side
/// ignored).
pub open spec fn cookie_value(header: Option<Seq<char>>, name: Seq<char>) -> Option<Seq<char>> {
    match header {
        Some(h) => cookie_from(h, name, 0),
        None => None,
    }
}

pub open spec fn opt_str_view(o: Option<&str>) -> Option<Seq<char>> {
    match o {
        Some(s) => Some(s@),
        None => None,
    }
}

/// Bounds of `trim(v[lo..hi])` inside `v`.
fn trim_bounds(v: &Vec<char>, lo: usize, hi: usize) -> (r: (usize, usize))
    requires
        lo <= hi <= v@.len(),
    ensures
        lo <= r.0 <= r.1 <= hi,
        v@.subrange(r.0 as int, r.1 as int) == trim(v@.subrange(lo as int, hi as int)),
{
    let mut a = lo;
    while a < hi && crate::text::is_whitespace(v[a])
        invariant
            lo <= a <= hi <= v@.len(),
            crate::text::trim_start(v@.subrange(lo as int, hi as int)) == crate::text::trim_start(
                v@.subrange(a as int, hi as int),
            ),
        decreases hi - a,
    {
        assert(v@.subrange(a as int, hi as int).drop_first() =~= v@.subrange(a + 1, hi as int));
        a += 1;
    }
    let mut b = hi;
    while b > a && crate::text::is_whitespace(v[b - 1])
        invariant
            lo <= a <= b <= hi <= v@.len(),
            crate::text::trim_end(v@.subrange(a as int, hi as int)) == crate::text::trim_end(
                v@.subrange(a as int, b as int),
            ),
        decreases b,
    {
        assert(v@.subrange(a as int, b as int).drop_last() =~= v@.subrange(a as int, b - 1));
        b -= 1;
    }
    (a, b)
}

/// The first `c` in `v[a..b]`, as a position in `v`.
fn find_char_in(v: &Vec<char>, c: char, a: usize, b: usize) -> (r: Option<usize>)
    requires
        a <= b <= v@.len(),
    ensures
        match r {
            Some(e) => a <= e < b && find(v@.subrange(a as int, b as int), seq![c]) == Some(
                (e - a) as int,
            ),
            None => find(v@.subrange(a as int, b as int), seq![c]) is None,
        },
{
    let ghost p = v@.subrange(a as int, b as int);
    let mut k = a;
    while k < b
        invariant
            a <= k <= b <= v@.len(),
            p == v@.subrange(a as int, b as int),
            find(p, seq![c]) == first_match_from(p, seq![c], k - a),
        decreases b - k,
    {
        assert(matches_at(p, k - a, seq![c]) <==> v@[k as int] == c) by {
            let q = p.subrange(k - a, k - a + 1);
            assert(q =~= seq![p[k - a]]);
            assert(p[k - a] == v@[k as int]);
            if v@[k as int] == c {
                assert(q =~= seq![c]);
            } else {
                assert(q[0] != seq![c][0]);
            }
        }
        if v[k] == c {
            return Some(k);
        }
        k += 1;
    }
    assert(first_match_from(p, seq![c], (b - a) as int) is None) by {
        assert(!matches_at(p, (b - a) as int, seq![c]));
        assert(first_match_from(p, seq![c], (b - a) + 1) is None);
    }
    None
}

/// The raw value of cookie `name` in a `Cookie` request header.
pub fn extract_cookie<'a>(header: Option<&'a str>, name: &str) -> (r: Option<&'a str>)
    ensures
        opt_str_view(r) == cookie_value(opt_str_view(header), name@),
{
    let h = match header {
        Some(h) => h,
        None => return None,
    };
    let v = str_chars(h);
    let nm = str_chars(name);
    let semi = vec![';'];
    assert(semi@ =~= seq![';']);
    let mut start: usize = 0;
    loop
        invariant
            start <= v@.len(),
            v@ == h@,
            nm@ == name@,
            semi@ == seq![';'],
            cookie_from(h@, name@, 0) == cookie_from(h@, name@, start as int),
            opt_str_view(header) == Some(h@),
        decreases v@.len() - start,
    {
        let end = match crate::text::find_from_chars(&v, &semi, start) {
            Some(j) => j,
            None => v.len(),
        };
        assert(end == piece_end(h@, start as int));
        let ghost piece = v@.subrange(start as int, end as int);
        let (a, b) = trim_bounds(&v, start, end);
        assert(v@.subrange(a as int, b as int) == trim(piece));
        match find_char_in(&v, '=', a, b) {
            Some(e) => {
                let ghost p = trim(piece);
                assert(p.take(e - a) =~= v@.subrange(a as int, e as int));
                assert(p.skip(e - a + 1) =~= v@.subrange(e + 1, b as int));
                let (ka, kb) = trim_bounds(&v, a, e);
                let key = slice_chars(&v, ka, kb);
                if chars_eq(&key, &nm) {
                    let (va, vb) = trim_bounds(&v, e + 1, b);
                    assert(piece_value(piece, name@) == Some(v@.subrange(va as int, vb as int)));
                    assert(h@.subrange(start as int, end as int) == piece);
                    assert(cookie_from(h@, name@, start as int) == piece_value(piece, name@));
                    return Some(h.substring_char(va, vb));
                }
                assert(piece_value(piece, name@) is None);
            },
            None => {
                assert(piece_value(piece, name@) is None);
            },
        }
        assert(h@.subrange(start as int, end as int) == piece);
        if end >= v.len() {
            assert(cookie_from(h@, name@, start as int) is None);
            return None;
        }
        start = end + 1;
    }
}

proof fn lemma_char_absent_from(s: Seq<char>, c: char, p: int)
    requires
        0 <= p <= s.len(),
        forall|i: int| p <= i < s.len() ==> s[i] != c,
    ensures
        first_match_from(s, seq![c], p) is None,
    decreases s.len() - p,
{
    if p < s.len() {
        assert(!matches_at(s, p, seq![c])) by {
            if matches_at(s, p, seq![c]) {
                assert(s.subrange(p, p + 1)[0] == s[p]);
            }
        }
        lemma_char_absent_from(s, c, p + 1);
    } else {
        assert(!matches_at(s, p, seq![c]));
        assert(first_match_from(s, seq![c], p + 1) is None);
    }
}

proof fn lemma_char_first_at(s: Seq<char>, c: char, p: int, k: int)
    requires
        0 <= p <= k < s.len(),
        s[k] == c,
        forall|i: int| p <= i < k ==> s[i] != c,
    ensures
        first_match_from(s, seq![c], p) == Some(k),
    decreases k - p,
{
    if p == k {
        assert(s.subrange(k, k + 1) =~= seq![c]);
    } else {
        assert(!matches_at(s, p, seq![c])) by {
            if matches_at(s, p, seq![c]) {
                assert(s.subrange(p, p + 1)[0] == s[p]);
            }
        }
        lemma_char_first_at(s, c, p + 1, k);
    }
}

proof fn lemma_trim_unchanged(s: Seq<char>)
    requires
        s.len() == 0 || (!is_ws(s[0]) && !is_ws(s.last())),
    ensures
        trim(s) == s,
{
    assert(trim_start(s) == s);
    assert(trim_end(s) == s);
}

/// A character that may appear in a cookie name or value as sent back.
pub open spec fn cookie_char(c: char) -> bool {
    c != ';' && !is_ws(c)
}

/// A cookie `name=value` that a browser sends back in its `Cookie` header,
/// possibly followed by further cookies (`rest` empty or starting with
/// `;`), is read back by [`extract_cookie`] as `value`.
pub proof fn law_cookie_read_back(name: Seq<char>, value: Seq<char>, rest: Seq<char>)
    requires
        name.len() > 0,
        forall|i: int| 0 <= i < name.len() ==> #[trigger] cookie_char(name[i]) && name[i] != '=',
        forall|i: int| 0 <= i < value.len() ==> #[trigger] cookie_char(value[i]),
        rest.len() == 0 || rest[0] == ';',
    ensures
        cookie_value(Some(name + seq!['='] + value + rest), name) == Some(value),
{
    let h = name + seq!['='] + value + rest;
    let n = name.len() as int;
    let end = n + 1 + value.len();
    assert forall|i: int| 0 <= i < end implies h[i] != ';' by {
        if i < n {
            assert(h[i] == name[i]);
            assert(cookie_char(name[i]));
        } else if i > n {
            assert(h[i] == value[i - n - 1]);
            assert(cookie_char(value[i - n - 1]));
        }
    }
    if rest.len() == 0 {
        assert(h.len() == end);
        lemma_char_absent_from(h, ';', 0);
    } else {
        assert(h[end] == rest[0]);
        lemma_char_first_at(h, ';', 0, end);
    }
    assert(piece_end(h, 0) == end);
    let piece = h.subrange(0, end);
    assert(piece =~= name + seq!['='] + value);
    assert(cookie_char(name[0]));
    if value.len() > 0 {
        assert(piece.last() == value.last());
        assert(cookie_char(value[value.len() - 1]));
    } else {
        assert(piece.last() == '=');
    }
    lemma_trim_unchanged(piece);
    assert forall|i: int| 0 <= i < n implies piece[i] != '=' by {
        assert(piece[i] == name[i]);
        assert(cookie_char(name[i]));
    }
    lemma_char_first_at(piece, '=', 0, n);
    assert(piece.take(n) =~= name);
    assert(cookie_char(name[n - 1]));
    lemma_trim_unchanged(name);
    assert(piece.skip(n + 1) =~= value);
    if value.len() > 0 {
        assert(cookie_char(value[0]));
        assert(cookie_char(value[value.len() - 1]));
    }
    lemma_trim_unchanged(value);
}

proof fn lemma_encoded_cookie_chars(b: Seq<u8>)
    ensures
        forall|i: int| 0 <= i < pct_encode_bytes(b).len() ==> #[trigger] cookie_char(pct_encode_bytes(b)[i]),
    decreases b.len(),
{
    if b.len() > 0 {
        let x = b[0];
        let rest = b.skip(1);
        lemma_encoded_cookie_chars(rest);
        let tail = pct_encode_bytes(rest);
        let chunk = if is_alnum_byte(x) {
            seq![x as char]
        } else {
            seq!['%', hex_digit((x / 16) as int), hex_digit((x % 16) as int)]
        };
        assert(pct_encode_bytes(b) == chunk + tail);
        assert forall|i: int| 0 <= i < chunk.len() implies #[trigger] cookie_char(chunk[i]) by {
            assert((chunk[i] as u32) == 37 || 48 <= (chunk[i] as u32) <= 122);
        }
        assert forall|i: int| 0 <= i < (chunk + tail).len() implies #[trigger] cookie_char((chunk + tail)[i]) by {
            if i < chunk.len() {
                assert(cookie_char(chunk[i]));
            } else {
                assert((chunk + tail)[i] == tail[i - chunk.len()]);
                assert(cookie_char(tail[i - chunk.len()]));
            }
        }
    }
}

/// The preferences cookie round trip: text percent-encoded into the
/// `educe_prefs` cookie (followed, in the `Cookie` header, by nothing or
/// by further cookies) is read back by [`extract_cookie`] and decodes to
/// the same text.
pub proof fn law_prefs_cookie_round_trip(text: Seq<char>, rest: Seq<char>)
    requires
        rest.len() == 0 || rest[0] == ';',
    ensures
        ({
            let read = cookie_value(Some(PREFS_COOKIE@ + seq!['='] + query_encoded(text) + rest), PREFS_COOKIE@);
            &&& read == Some(query_encoded(text))
            &&& percent_decoded(read.unwrap()) == Some(text)
        }),
{
    reveal_strlit("educe_prefs");
    let name = PREFS_COOKIE@;
    assert forall|i: int| 0 <= i < name.len() implies #[trigger] cookie_char(name[i]) && name[i] != '=' by {
        assert(97 <= (name[i] as u32) <= 122 || name[i] == '_');
    }
    lemma_encoded_cookie_chars(vstd::utf8::encode_utf8(text));
    law_cookie_read_back(name, query_encoded(text), rest);
    law_percent_round_trip(text);
}

/// The `Set-Cookie` header that stores `value` for `max_age` seconds (an
/// empty value with `max_age` 0 deletes it).
pub fn set_cookie_header(value: &str, max_age: i64) -> (r: String)
    ensures
        r@ == "educe_prefs="@ + value@ + "; Path=/; HttpOnly; SameSite=Lax; Max-Age="@
            + signed_decimal(max_age as int),
{
    let mut v = str_chars(PREFS_COOKIE);
    push_str(&mut v, "=");
    push_str(&mut v, value);
    push_str(&mut v, "; Path=/; HttpOnly; SameSite=Lax; Max-Age=");
    push_signed_decimal(&mut v, max_age);
    proof {
        reveal_strlit("educe_prefs");
        reveal_strlit("=");
        reveal_strlit("educe_prefs=");
    }
    chars_to_string(v.as_slice())
}

/// Whether an engine is on and its ranking weight (`f64` bit pattern) for a
/// visitor: the preference when there is one (weight falling back to the
/// configuration), else on with the configured weight.
pub fn engine_setting(prefs: Option<&UserPrefs>, cfg: &AppConfig, id: &str) -> (r: (bool, u64))
    ensures
        ({
            let p = match prefs {
                Some(u) => lookup(u.engines@, id@),
                None => None,
            };
            let cw = match lookup(cfg.weights@, id@) {
                Some(w) => w,
                None => crate::config::DEFAULT_WEIGHT_BITS,
            };
            r == match p {
                Some(e) => (
                    e.enabled,
                    match e.weight {
                        Some(w) => w,
                        None => cw,
                    },
                ),
                None => (true, cw),
            }
        }),
{
    let p = match prefs {
        Some(u) => lookup_in(&u.engines, id),
        None => None,
    };
    let cw = cfg.weight_for(id);
    match p {
        Some(e) => (
            e.enabled,
            match e.weight {
                Some(w) => w,
                None => cw,
            },
        ),
        None => (true, cw),
    }
}

} // verus!
