//! Static configuration: the built-in defaults of every section.
//!
//! Loading (TOML file, `EDUCE_*` environment overrides) is done by the
//! application around the library; this module holds the typed values and the
//! lookups the rest of the library makes in them.
use vstd::prelude::*;

use crate::text::{owned, str_eq};

verus! {

/// `[server]`
#[derive(Debug, Clone)]
pub struct ServerConfig {
    pub host: String,
    pub port: u16,
}

impl Default for ServerConfig {
    fn default() -> (r: Self)
        ensures
            r.host@ == "127.0.0.1"@,
            r.port == 8080,
    {
        ServerConfig { host: owned("127.0.0.1"), port: 8080 }
    }
}

/// `[search]`
#[derive(Debug, Clone)]
pub struct SearchConfig {
    /// Most results asked of each source.
    pub max_per_source: usize,
    /// Per-source timeout (milliseconds).
    pub timeout_ms: u64,
    /// Upper bound of a page of aggregated results.
    pub max_results: usize,
    /// Whether results are merged across sources.
    pub dedup: bool,
    /// Most sources queried at the same time.
    pub max_concurrent: usize,
}

impl Default for SearchConfig {
    fn default() -> (r: Self)
        ensures
            r.max_per_source == 30,
            r.timeout_ms == 10_000,
            r.max_results == 100,
            r.dedup,
            r.max_concurrent == 8,
    {
        SearchConfig {
            max_per_source: 30,
            timeout_ms: 10_000,
            max_results: 100,
            dedup: true,
            max_concurrent: 8,
        }
    }
}

/// `[cache]`: TTL cache of aggregated results.
#[derive(Debug, Clone)]
pub struct CacheConfig {
    pub enabled: bool,
    /// Lifetime of an entry (seconds).
    pub ttl_seconds: u64,
    /// Most entries kept (0 = no bound).
    pub max_entries: usize,
}

impl Default for CacheConfig {
    fn default() -> (r: Self)
        ensures
            r.enabled,
            r.ttl_seconds == 300,
            r.max_entries == 200,
    {
        CacheConfig { enabled: true, ttl_seconds: 300, max_entries: 200 }
    }
}

/// `[proxy]`
#[derive(Debug, Clone)]
pub struct ProxyConfig {
    pub enabled: bool,
    /// Proxy URLs (http / https / socks5).
    pub urls: Vec<String>,
    /// `round_robin` | `random`
    pub rotate: String,
}

impl Default for ProxyConfig {
    fn default() -> (r: Self)
        ensures
            !r.enabled,
            r.urls@.len() == 0,
            r.rotate@ == "round_robin"@,
    {
        ProxyConfig { enabled: false, urls: Vec::new(), rotate: owned("round_robin") }
    }
}

/// `[js_render]`
#[derive(Debug, Clone)]
pub struct JsRenderConfig {
    pub enabled: bool,
    /// External render command; gets the URL as its last argument and prints the HTML.
    pub command: String,
    pub timeout_ms: u64,
    /// Sources that go through the renderer.
    pub sources: Vec<String>,
}

impl Default for JsRenderConfig {
    fn default() -> (r: Self)
        ensures
            !r.enabled,
            r.command@ == "node js-exec/render.js"@,
            r.timeout_ms == 30_000,
            r.sources@.len() == 0,
    {
        JsRenderConfig {
            enabled: false,
            command: owned("node js-exec/render.js"),
            timeout_ms: 30_000,
            sources: Vec::new(),
        }
    }
}

/// `[engines]`
#[derive(Debug, Clone)]
pub struct EnginesConfig {
    /// Allow list; empty = every engine.
    pub enabled: Vec<String>,
}

impl Default for EnginesConfig {
    fn default() -> (r: Self)
        ensures
            r.enabled@.len() == 0,
    {
        EnginesConfig { enabled: Vec::new() }
    }
}

/// `[logging]`
#[derive(Debug, Clone)]
pub struct LoggingConfig {
    pub level: String,
}

impl Default for LoggingConfig {
    fn default() -> (r: Self)
        ensures
            r.level@ == "info"@,
    {
        LoggingConfig { level: owned("info") }
    }
}

/// The whole configuration.
///
/// Ranking weights are kept as the IEEE-754 bit patterns of the configured
/// `f64` values: the library only stores and looks them up.
#[derive(Debug, Clone)]
pub struct AppConfig {
    pub server: ServerConfig,
    pub search: SearchConfig,
    pub cache: CacheConfig,
    pub proxy: ProxyConfig,
    /// Requests per minute per engine id; the key "default" is the fallback.
    pub rate_limit: Vec<(String, u32)>,
    /// Ranking weight per engine id (`f64::to_bits`).
    pub weights: Vec<(String, u64)>,
    pub js_render: JsRenderConfig,
    pub engines: EnginesConfig,
    pub logging: LoggingConfig,
}

impl Default for AppConfig {
    fn default() -> (r: Self)
        ensures
            r.rate_limit@.len() == 0,
            r.weights@.len() == 0,
            r.search.max_per_source == 30,
            r.search.timeout_ms == 10_000,
            r.search.max_results == 100,
            r.search.dedup,
            r.search.max_concurrent == 8,
            r.cache.enabled,
            r.cache.ttl_seconds == 300,
            r.cache.max_entries == 200,
            r.engines.enabled@.len() == 0,
    {
        AppConfig {
            server: ServerConfig::default(),
            search: SearchConfig::default(),
            cache: CacheConfig::default(),
            proxy: ProxyConfig::default(),
            rate_limit: Vec::new(),
            weights: Vec::new(),
            js_render: JsRenderConfig::default(),
            engines: EnginesConfig::default(),
            logging: LoggingConfig::default(),
        }
    }
}

/// Value of the first entry of `table` whose key is `key`.
pub open spec fn lookup<V>(table: Seq<(String, V)>, key: Seq<char>) -> Option<V>
    decreases table.len(),
{
    if table.len() == 0 {
        None
    } else if table[0].0@ == key {
        Some(table[0].1)
    } else {
        lookup(table.drop_first(), key)
    }
}

/// Executable [`lookup`].
pub fn lookup_in<V: Copy>(table: &Vec<(String, V)>, key: &str) -> (r: Option<V>)
    ensures
        r == lookup(table@, key@),
{
    let mut i: usize = 0;
    assert(table@.skip(0) =~= table@);
    while i < table.len()
        invariant
            i <= table@.len(),
            lookup(table@, key@) == lookup(table@.skip(i as int), key@),
        decreases table.len() - i,
    {
        assert(table@.skip(i as int)[0] == table@[i as int]);
        assert(table@.skip(i as int).drop_first() =~= table@.skip(i + 1));
        if str_eq(table[i].0.as_str(), key) {
            return Some(table[i].1);
        }
        i += 1;
    }
    None
}

/// Bit pattern of the default weight 1.0.
pub const DEFAULT_WEIGHT_BITS: u64 = 0x3FF0_0000_0000_0000;

/// Requests per minute allowed to `engine`: its own entry, else "default", else 30.
pub open spec fn rate_limit_spec(cfg: AppConfig, engine: Seq<char>) -> u32 {
    match lookup(cfg.rate_limit@, engine) {
        Some(v) => v,
        None => match lookup(cfg.rate_limit@, "default"@) {
            Some(v) => v,
            None => 30,
        },
    }
}

impl AppConfig {
    /// Rate limit of an engine (requests per minute), falling back to "default", then 30.
    pub fn rate_limit_for(&self, engine: &str) -> (r: u32)
        ensures
            r == rate_limit_spec(*self, engine@),
    {
        match lookup_in(&self.rate_limit, engine) {
            Some(v) => v,
            None => match lookup_in(&self.rate_limit, "default") {
                Some(v) => v,
                None => 30,
            },
        }
    }

    /// Ranking weight of an engine (`f64` bit pattern), 1.0 when not configured.
    pub fn weight_for(&self, engine: &str) -> (r: u64)
        ensures
            r == match lookup(self.weights@, engine@) {
                Some(w) => w,
                None => DEFAULT_WEIGHT_BITS,
            },
    {
        match lookup_in(&self.weights, engine) {
            Some(w) => w,
            None => DEFAULT_WEIGHT_BITS,
        }
    }
}

/// Prefix of the environment variables that override configuration keys.
pub const ENV_PREFIX: &'static str = "EDUCE_";

/// The pieces of `s` separated by `__`, left to right (`str::split("__")`).
pub open spec fn double_underscore_pieces(s: Seq<char>) -> Seq<Seq<char>>
    decreases s.len(),
{
    match crate::text::find(s, "__"@) {
        Some(p) => if 0 <= p && p + 2 <= s.len() {
            seq![s.take(p)] + double_underscore_pieces(s.skip(p + 2))
        } else {
            seq![s]
        },
        None => seq![s],
    }
}

/// The configuration path an environment variable overrides:
/// `EDUCE_SERVER__PORT` names `server.port`, the pieces between `__` in
/// lower case, as the configuration's keys are (`["server", "port"]`);
/// none for other variables or the bare prefix.
pub open spec fn env_path_spec(key: Seq<char>) -> Option<Seq<Seq<char>>> {
    if crate::text::starts_with(key, "EDUCE_"@) && key.len() > 6 {
        Some(double_underscore_pieces(crate::text::ascii_lower_seq(key.skip(6))))
    } else {
        None
    }
}

/// Executable [`env_path_spec`].
pub fn env_path(key: &str) -> (r: Option<Vec<String>>)
    ensures
        match env_path_spec(key@) {
            Some(ps) => r matches Some(v) && crate::text::strings_view(v@) == ps,
            None => r is None,
        },
{
    proof {
        reveal_strlit("EDUCE_");
        reveal_strlit("__");
    }
    let v = crate::text::str_chars(key);
    let prefix = crate::text::str_chars("EDUCE_");
    if !crate::text::starts_with_chars(&v, &prefix) || v.len() <= 6 {
        return None;
    }
    let sep = crate::text::str_chars("__");
    let tail = crate::text::slice_chars(&v, 6, v.len());
    let mut rest = crate::text::ascii_lower_chars(&tail);
    let mut out: Vec<String> = Vec::new();
    let ghost low = crate::text::ascii_lower_seq(key@.skip(6));
    assert(tail@ =~= key@.skip(6));
    assert(rest@ == low);
    loop
        invariant
            sep@ == "__"@,
            sep@.len() == 2,
            env_path_spec(key@) == Some(double_underscore_pieces(low)),
            crate::text::strings_view(out@) + double_underscore_pieces(rest@) == double_underscore_pieces(
                low,
            ),
        decreases rest@.len(),
    {
        match crate::text::find_from_chars(&rest, &sep, 0) {
            Some(p) => {
                let ghost old_rest = rest@;
                let head = crate::text::slice_chars(&rest, 0, p);
                let ghost prev = crate::text::strings_view(out@);
                out.push(crate::text::chars_to_string(head.as_slice()));
                let n = rest.len();
                assert(p + 2 <= n);
                rest = crate::text::slice_chars(&rest, p + 2, n);
                assert(crate::text::strings_view(out@) =~= prev.push(old_rest.take(p as int)));
                assert(double_underscore_pieces(old_rest) == seq![old_rest.take(p as int)]
                    + double_underscore_pieces(old_rest.skip(p + 2)));
                assert(rest@ =~= old_rest.skip(p + 2));
                assert(crate::text::strings_view(out@) + double_underscore_pieces(rest@) =~= prev
                    + double_underscore_pieces(old_rest));
            },
            None => {
                let ghost prev = crate::text::strings_view(out@);
                let last = crate::text::chars_to_string(rest.as_slice());
                out.push(last);
                assert(crate::text::strings_view(out@) =~= prev + double_underscore_pieces(rest@));
                return Some(out);
            },
        }
    }
}

} // verus!
