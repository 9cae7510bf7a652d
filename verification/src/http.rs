//! HTTP layer decisions: proxy rotation, the client pool to build, request
//! header pools and response status handling. The clients, the requests and
//! the per-source token-bucket rate limiter live in the application.
use vstd::prelude::*;

use crate::config::ProxyConfig;
use crate::text::{chars_to_string, decimal, push_decimal, push_str, str_chars, str_eq, strings_view};

verus! {

/// How requests are spread over the client pool.
#[derive(Debug, Clone, Copy, PartialEq, Eq)]
pub enum Rotate {
    RoundRobin,
    Random,
}

impl Rotate {
    /// `random` selects random picks; anything else round robin.
    pub fn from_str(s: &str) -> (r: Rotate)
        ensures
            r == (if s@ == "random"@ {
                Rotate::Random
            } else {
                Rotate::RoundRobin
            }),
    {
        if str_eq(s, "random") {
            Rotate::Random
        } else {
            Rotate::RoundRobin
        }
    }
}

/// The client of a pool of `len` used for a request: the only one, a
/// random one (`random`, drawn below `len` by the caller), or the next in
/// turn (`counter` counts the requests made so far).
pub fn pool_index(rotate: Rotate, len: usize, counter: usize, random: usize) -> (r: usize)
    requires
        len > 0,
        random < len,
    ensures
        r < len,
        len == 1 ==> r == 0,
        len > 1 && rotate == Rotate::Random ==> r == random,
        len > 1 && rotate == Rotate::RoundRobin ==> r == counter % len,
{
    if len == 1 {
        0
    } else {
        match rotate {
            Rotate::Random => random,
            Rotate::RoundRobin => counter % len,
        }
    }
}

/// The proxies to build one client each for: all configured ones when the
/// pool is enabled; none (a single direct client) otherwise.
pub fn proxy_urls(cfg: &ProxyConfig) -> (r: Vec<String>)
    ensures
        strings_view(r@) == if cfg.enabled {
            strings_view(cfg.urls@)
        } else {
            Seq::<Seq<char>>::empty()
        },
{
    let mut out: Vec<String> = Vec::new();
    if cfg.enabled {
        let mut i: usize = 0;
        while i < cfg.urls.len()
            invariant
                i <= cfg.urls@.len(),
                out@.len() == i,
                strings_view(out@) == strings_view(cfg.urls@).take(i as int),
            decreases cfg.urls.len() - i,
        {
            let ghost prev = out@;
            out.push(cfg.urls[i].clone());
            assert forall|k: int| 0 <= k < i + 1 implies #[trigger] strings_view(out@)[k]
                == strings_view(cfg.urls@).take(i + 1)[k] by {
                if k < i {
                    assert(out@[k] == prev[k]);
                    assert(strings_view(prev)[k] == strings_view(cfg.urls@).take(i as int)[k]);
                }
            }
            assert(strings_view(out@) =~= strings_view(cfg.urls@).take(i + 1));
            i += 1;
        }
        assert(strings_view(cfg.urls@).take(cfg.urls@.len() as int) =~= strings_view(cfg.urls@));
    } else {
        assert(strings_view(out@) =~= Seq::<Seq<char>>::empty());
    }
    out
}

/// Number of browser User-Agent strings requests pick from.
pub const USER_AGENT_COUNT: usize = 8;

/// Number of Accept-Language values requests pick from.
pub const LANGUAGE_COUNT: usize = 3;

/// The Accept header of every request.
pub const ACCEPT: &'static str = "text/html,application/xhtml+xml,application/xml;q=0.9,image/avif,image/webp,*/*;q=0.8";

/// The browser User-Agent strings requests pick from.
pub open spec fn user_agents() -> Seq<Seq<char>> {
    seq![
        "Mozilla/5.0 (Windows NT 10.0; Win64; x64) AppleWebKit/537.36 (KHTML, like Gecko) Chrome/126.0.0.0 Safari/537.36"@,
        "Mozilla/5.0 (Windows NT 10.0; Win64; x64) AppleWebKit/537.36 (KHTML, like Gecko) Chrome/125.0.0.0 Safari/537.36 Edg/125.0.0.0"@,
        "Mozilla/5.0 (Macintosh; Intel Mac OS X 10_15_7) AppleWebKit/537.36 (KHTML, like Gecko) Chrome/126.0.0.0 Safari/537.36"@,
        "Mozilla/5.0 (Macintosh; Intel Mac OS X 10_15_7) AppleWebKit/605.1.15 (KHTML, like Gecko) Version/17.4 Safari/605.1.15"@,
        "Mozilla/5.0 (X11; Linux x86_64; rv:127.0) Gecko/20100101 Firefox/127.0"@,
        "Mozilla/5.0 (Windows NT 10.0; Win64; x64; rv:126.0) Gecko/20100101 Firefox/126.0"@,
        "Mozilla/5.0 (iPhone; CPU iPhone OS 17_5 like Mac OS X) AppleWebKit/605.1.15 (KHTML, like Gecko) Version/17.5 Mobile/15E148 Safari/604.1"@,
        "Mozilla/5.0 (Linux; Android 14; Pixel 8) AppleWebKit/537.36 (KHTML, like Gecko) Chrome/126.0.0.0 Mobile Safari/537.36"@,
    ]
}

/// The Accept-Language values requests pick from.
pub open spec fn accept_languages() -> Seq<Seq<char>> {
    seq![
        "zh-CN,zh;q=0.9,en;q=0.8"@,
        "en-US,en;q=0.9,zh-CN;q=0.8"@,
        "zh-CN,zh;q=0.8,en-US;q=0.7,en;q=0.6"@,
    ]
}

/// Browser User-Agent `i` of the pool.
pub fn user_agent(i: usize) -> (r: &'static str)
    requires
        i < USER_AGENT_COUNT,
    ensures
        r@ == user_agents()[i as int],
{
    match i {
        0 => "Mozilla/5.0 (Windows NT 10.0; Win64; x64) AppleWebKit/537.36 (KHTML, like Gecko) Chrome/126.0.0.0 Safari/537.36",
        1 => "Mozilla/5.0 (Windows NT 10.0; Win64; x64) AppleWebKit/537.36 (KHTML, like Gecko) Chrome/125.0.0.0 Safari/537.36 Edg/125.0.0.0",
        2 => "Mozilla/5.0 (Macintosh; Intel Mac OS X 10_15_7) AppleWebKit/537.36 (KHTML, like Gecko) Chrome/126.0.0.0 Safari/537.36",
        3 => "Mozilla/5.0 (Macintosh; Intel Mac OS X 10_15_7) AppleWebKit/605.1.15 (KHTML, like Gecko) Version/17.4 Safari/605.1.15",
        4 => "Mozilla/5.0 (X11; Linux x86_64; rv:127.0) Gecko/20100101 Firefox/127.0",
        5 => "Mozilla/5.0 (Windows NT 10.0; Win64; x64; rv:126.0) Gecko/20100101 Firefox/126.0",
        6 => "Mozilla/5.0 (iPhone; CPU iPhone OS 17_5 like Mac OS X) AppleWebKit/605.1.15 (KHTML, like Gecko) Version/17.5 Mobile/15E148 Safari/604.1",
        _ => "Mozilla/5.0 (Linux; Android 14; Pixel 8) AppleWebKit/537.36 (KHTML, like Gecko) Chrome/126.0.0.0 Mobile Safari/537.36",
    }
}

/// Accept-Language value `i` of the pool.
pub fn accept_language(i: usize) -> (r: &'static str)
    requires
        i < LANGUAGE_COUNT,
    ensures
        r@ == accept_languages()[i as int],
{
    match i {
        0 => "zh-CN,zh;q=0.9,en;q=0.8",
        1 => "en-US,en;q=0.9,zh-CN;q=0.8",
        _ => "zh-CN,zh;q=0.8,en-US;q=0.7,en;q=0.6",
    }
}

/// The error a text response gives by its status: none for 2xx, else
/// "HTTP {status}: {url}".
pub fn text_status_error(status: u16, url: &str) -> (r: Option<String>)
    ensures
        200 <= status <= 299 ==> r is None,
        !(200 <= status <= 299) ==> (r matches Some(m) && m@ == "HTTP "@ + decimal(status as nat)
            + ": "@ + url@),
{
    if 200 <= status && status <= 299 {
        return None;
    }
    let mut v = str_chars("HTTP ");
    push_decimal(&mut v, status as u64);
    push_str(&mut v, ": ");
    push_str(&mut v, url);
    Some(chars_to_string(v.as_slice()))
}

} // verus!
