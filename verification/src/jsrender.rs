//! JS render bridge settings: sources that need JavaScript are rendered by an
//! external command (Node + puppeteer) that prints the final HTML; the
//! application runs the command, the library decides whether and how.
use std::sync::Arc;

use vstd::prelude::*;

use crate::config::JsRenderConfig;
use crate::search::split_words;
use crate::text::{chars_to_string, owned, str_chars, strings_view, trim, trim_chars, words};

verus! {

/// A configured renderer.
pub struct JsRenderer {
    /// Command line (trimmed); the URL is passed as one more argument.
    pub command: String,
    /// Render timeout (milliseconds, at least 1000).
    pub timeout_ms: u64,
}

impl JsRenderer {
    /// The renderer a configuration asks for; `None` when it is disabled or
    /// its command is blank.
    pub fn from_config(cfg: &JsRenderConfig) -> (r: Option<Arc<Self>>)
        ensures
            r is Some <==> (cfg.enabled && trim(cfg.command@).len() > 0),
            r matches Some(j) ==> j.command@ == trim(cfg.command@) && j.timeout_ms == (if cfg.timeout_ms
                < 1000 {
                1000
            } else {
                cfg.timeout_ms
            }),
    {
        let cmd = trim_chars(&str_chars(cfg.command.as_str()));
        if !cfg.enabled || cmd.len() == 0 {
            return None;
        }
        let timeout_ms = if cfg.timeout_ms < 1000 {
            1000
        } else {
            cfg.timeout_ms
        };
        Some(Arc::new(JsRenderer { command: chars_to_string(cmd.as_slice()), timeout_ms }))
    }

    /// The command line that renders `url`: the words of the command (the
    /// program first), then the URL as the last argument.
    pub fn command_line(&self, url: &str) -> (r: Vec<String>)
        ensures
            strings_view(r@) == words(self.command@).push(url@),
    {
        let mut v = split_words(self.command.as_str());
        let ghost before = v@;
        v.push(owned(url));
        assert(strings_view(v@) =~= strings_view(before).push(url@));
        v
    }
}

} // verus!
