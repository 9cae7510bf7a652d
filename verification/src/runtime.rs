//! Runtime settings (editable from the settings page): proxy pool and JS
//! render bridge. They override the matching static configuration at start
//! and are persisted to `runtime.toml` by the application.
use vstd::prelude::*;

use crate::config::{AppConfig, JsRenderConfig, ProxyConfig};
use crate::text::owned;

verus! {

/// Runtime settings file (working directory).
pub const RUNTIME_FILE: &'static str = "runtime.toml";

/// Runtime settings.
#[derive(Debug, Clone)]
pub struct RuntimeSettings {
    /// Proxy pool switch.
    pub proxy_enabled: bool,
    /// Proxy URLs (http / https / socks5).
    pub proxy_urls: Vec<String>,
    /// Rotation: `round_robin` | `random`.
    pub proxy_rotate: String,
    /// JS render bridge switch.
    pub js_enabled: bool,
    /// Render command (gets a URL, prints HTML).
    pub js_command: String,
    /// Render timeout (milliseconds).
    pub js_timeout_ms: u64,
    /// Engine ids that go through the bridge.
    pub js_sources: Vec<String>,
}

pub open spec fn strings_view(v: Seq<String>) -> Seq<Seq<char>> {
    v.map_values(|s: String| s@)
}

fn clone_strings(v: &Vec<String>) -> (r: Vec<String>)
    ensures
        r@ == v@,
{
    let mut out: Vec<String> = Vec::new();
    let mut i: usize = 0;
    while i < v.len()
        invariant
            i <= v@.len(),
            out@ == v@.take(i as int),
        decreases v.len() - i,
    {
        let s = v[i].clone();
        out.push(s);
        i += 1;
        assert(out@ =~= v@.take(i as int));
    }
    assert(v@.take(v@.len() as int) =~= v@);
    out
}

impl Default for RuntimeSettings {
    fn default() -> (r: Self)
        ensures
            !r.proxy_enabled,
            r.proxy_urls@.len() == 0,
            r.proxy_rotate@ == "round_robin"@,
            !r.js_enabled,
            r.js_command@ == "node js-exec/render.js"@,
            r.js_timeout_ms == 30_000,
            r.js_sources@.len() == 0,
    {
        RuntimeSettings {
            proxy_enabled: false,
            proxy_urls: Vec::new(),
            proxy_rotate: owned("round_robin"),
            js_enabled: false,
            js_command: owned("node js-exec/render.js"),
            js_timeout_ms: 30_000,
            js_sources: Vec::new(),
        }
    }
}

impl RuntimeSettings {
    /// Initial runtime settings taken from the static configuration.
    pub fn from_cfg(cfg: &AppConfig) -> (r: Self)
        ensures
            r.proxy_enabled == cfg.proxy.enabled,
            strings_view(r.proxy_urls@) == strings_view(cfg.proxy.urls@),
            r.proxy_rotate@ == cfg.proxy.rotate@,
            r.js_enabled == cfg.js_render.enabled,
            r.js_command@ == cfg.js_render.command@,
            r.js_timeout_ms == cfg.js_render.timeout_ms,
            strings_view(r.js_sources@) == strings_view(cfg.js_render.sources@),
    {
        RuntimeSettings {
            proxy_enabled: cfg.proxy.enabled,
            proxy_urls: clone_strings(&cfg.proxy.urls),
            proxy_rotate: cfg.proxy.rotate.clone(),
            js_enabled: cfg.js_render.enabled,
            js_command: cfg.js_render.command.clone(),
            js_timeout_ms: cfg.js_render.timeout_ms,
            js_sources: clone_strings(&cfg.js_render.sources),
        }
    }

    /// The proxy section these settings stand for (to rebuild the HTTP client).
    pub fn to_proxy_config(&self) -> (r: ProxyConfig)
        ensures
            r.enabled == self.proxy_enabled,
            strings_view(r.urls@) == strings_view(self.proxy_urls@),
            r.rotate@ == self.proxy_rotate@,
    {
        ProxyConfig {
            enabled: self.proxy_enabled,
            urls: clone_strings(&self.proxy_urls),
            rotate: self.proxy_rotate.clone(),
        }
    }

    /// The JS render section these settings stand for (to rebuild the renderer).
    pub fn to_js_config(&self) -> (r: JsRenderConfig)
        ensures
            r.enabled == self.js_enabled,
            r.command@ == self.js_command@,
            r.timeout_ms == self.js_timeout_ms,
            strings_view(r.sources@) == strings_view(self.js_sources@),
    {
        JsRenderConfig {
            enabled: self.js_enabled,
            command: self.js_command.clone(),
            timeout_ms: self.js_timeout_ms,
            sources: clone_strings(&self.js_sources),
        }
    }
}

} // verus!
