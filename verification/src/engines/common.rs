//! Parsing and URL helpers shared by the engine adapters.
use vstd::prelude::*;

use base64::Engine as _;

use crate::engines::html::{or_empty, ranked};
use crate::models::{new_result, opt_view, results_view, SearchResult};
use crate::text::{
    chars_to_string, collapse_chars, decimal, push_decimal, push_str, collapse_ws, ends_with, is_whitespace, is_ws, owned,
    slice_chars, starts_with, str_chars, str_contains, contains, find, find_from_chars,
    ascii_digit, is_ascii_digit, str_ends_with, str_eq, str_starts_with, to_lowercase,
    lowercase, utf8_decode, utf8_len, join, push_joined, strings_view, words,
    lemma_collapse_idempotent, lemma_words_chars,
};

verus! {

/// Collapses whitespace: trims both ends and squeezes every run of
/// whitespace into one space.
pub fn clean_text(s: &str) -> (r: String)
    ensures
        r@ == collapse_ws(s@),
{
    let v = collapse_chars(&str_chars(s));
    chars_to_string(v.as_slice())
}

/// What [`clip`] returns: the cleaned text, cut to `max` characters with an
/// ellipsis appended when it was longer.
pub open spec fn clip_spec(s: Seq<char>, max: nat) -> Seq<char> {
    let t = collapse_ws(s);
    if t.len() <= max {
        t
    } else {
        t.take(max as int).push('…')
    }
}

/// Cleans `s` and truncates it to `max_chars` characters (on character
/// boundaries), appending `…` when something was cut.
pub fn clip(s: &str, max_chars: usize) -> (r: String)
    ensures
        r@ == clip_spec(s@, max_chars as nat),
{
    let t = collapse_chars(&str_chars(s));
    if t.len() <= max_chars {
        return chars_to_string(t.as_slice());
    }
    let mut out = slice_chars(&t, 0, max_chars);
    out.push('…');
    chars_to_string(out.as_slice())
}

/// Characters outside `<...>` tags, with the "inside a tag" state after the
/// last character.
pub open spec fn strip_tags(s: Seq<char>) -> (Seq<char>, bool)
    decreases s.len(),
{
    if s.len() == 0 {
        (seq![], false)
    } else {
        let prev = strip_tags(s.drop_last());
        let c = s.last();
        if c == '<' {
            (prev.0, true)
        } else if c == '>' {
            (prev.0, false)
        } else if !prev.1 {
            (prev.0.push(c), prev.1)
        } else {
            prev
        }
    }
}

/// Plain text of an HTML fragment: tags removed, whitespace collapsed.
pub open spec fn strip_html_spec(s: Seq<char>) -> Seq<char> {
    collapse_ws(strip_tags(s).0)
}

/// Extracts the plain text of an HTML fragment (tags removed, whitespace
/// collapsed); used to complete snippets.
pub fn strip_html(s: &str) -> (r: String)
    ensures
        r@ == strip_html_spec(s@),
{
    let v = str_chars(s);
    let mut out: Vec<char> = Vec::new();
    let mut in_tag = false;
    let mut i: usize = 0;
    while i < v.len()
        invariant
            i <= v.len(),
            (out@, in_tag) == strip_tags(v@.take(i as int)),
        decreases v.len() - i,
    {
        let c = v[i];
        assert(v@.take(i + 1).drop_last() =~= v@.take(i as int));
        if c == '<' {
            in_tag = true;
        } else if c == '>' {
            in_tag = false;
        } else if !in_tag {
            out.push(c);
        }
        i += 1;
    }
    assert(v@.take(v@.len() as int) =~= v@);
    let r = collapse_chars(&out);
    chars_to_string(r.as_slice())
}


/// Whether `s` holds neither `<` nor `>`.
pub open spec fn no_angle(s: Seq<char>) -> bool {
    forall|i: int| 0 <= i < s.len() ==> #[trigger] s[i] != '<' && s[i] != '>'
}

proof fn lemma_strip_tags_no_angle(s: Seq<char>)
    ensures
        no_angle(strip_tags(s).0),
        no_angle(s) ==> strip_tags(s) == (s, false),
    decreases s.len(),
{
    if s.len() > 0 {
        let p = s.drop_last();
        lemma_strip_tags_no_angle(p);
        if no_angle(s) {
            assert(no_angle(p)) by {
                assert forall|i: int| 0 <= i < p.len() implies #[trigger] p[i] != '<' && p[i]
                    != '>' by {
                    assert(p[i] == s[i]);
                }
            }
            assert(s[s.len() - 1] != '<' && s[s.len() - 1] != '>');
            assert(p.push(s.last()) =~= s);
        }
        let q = strip_tags(p).0;
        let c = s.last();
        if c != '<' && c != '>' && !strip_tags(p).1 {
            assert forall|i: int| 0 <= i < q.push(c).len() implies #[trigger] q.push(c)[i] != '<'
                && q.push(c)[i] != '>' by {
                if i < q.len() {
                    assert(q.push(c)[i] == q[i]);
                }
            }
        }
    }
}

proof fn lemma_join_no_angle(parts: Seq<Seq<char>>)
    requires
        forall|i: int| 0 <= i < parts.len() ==> no_angle(#[trigger] parts[i]),
    ensures
        no_angle(join(parts, seq![' '])),
    decreases parts.len(),
{
    if parts.len() == 1 {
        assert(no_angle(parts[0]));
    } else if parts.len() > 1 {
        let q = parts.drop_last();
        assert forall|i: int| 0 <= i < q.len() implies no_angle(#[trigger] q[i]) by {
            assert(q[i] == parts[i]);
        }
        lemma_join_no_angle(q);
        let a = join(q, seq![' ']);
        let l = parts.last();
        assert(no_angle(l)) by {
            assert(parts[parts.len() - 1] == l);
        }
        let t = a + seq![' '] + l;
        assert forall|i: int| 0 <= i < t.len() implies #[trigger] t[i] != '<' && t[i] != '>' by {
            if i < a.len() {
                assert(t[i] == a[i]);
            } else if i == a.len() {
                assert(t[i] == ' ');
            } else {
                assert(t[i] == l[i - a.len() - 1]);
            }
        }
    }
}

proof fn lemma_collapse_no_angle(t: Seq<char>)
    requires
        no_angle(t),
    ensures
        no_angle(collapse_ws(t)),
{
    let f = |c: char| c != '<' && c != '>';
    assert forall|j: int| 0 <= j < t.len() && !is_ws(#[trigger] t[j]) implies f(t[j]) by {}
    lemma_words_chars(t, f);
    let w = words(t);
    assert forall|i: int| 0 <= i < w.len() implies no_angle(#[trigger] w[i]) by {
        assert forall|k: int| 0 <= k < w[i].len() implies #[trigger] w[i][k] != '<' && w[i][k]
            != '>' by {
            assert(f(words(t)[i][k]));
        }
    }
    lemma_join_no_angle(w);
}

/// The plain text of a fragment holds no `<` or `>`, is left unchanged by
/// collapsing its whitespace again and by extracting its plain text again;
/// and a fragment without angle brackets only has its whitespace collapsed.
pub proof fn law_strip_html_plain(s: Seq<char>)
    ensures
        no_angle(strip_html_spec(s)),
        collapse_ws(strip_html_spec(s)) == strip_html_spec(s),
        strip_html_spec(strip_html_spec(s)) == strip_html_spec(s),
        no_angle(s) ==> strip_html_spec(s) == collapse_ws(s),
{
    let t = strip_tags(s).0;
    lemma_strip_tags_no_angle(s);
    lemma_collapse_no_angle(t);
    let r = collapse_ws(t);
    lemma_collapse_idempotent(t);
    lemma_strip_tags_no_angle(r);
}

// ---- percent encoding ----

/// Value of an ASCII hexadecimal digit byte.
pub open spec fn hex_val(b: u8) -> Option<u8> {
    if 48 <= b <= 57 {
        Some((b - 48) as u8)
    } else if 65 <= b <= 70 {
        Some((b - 55) as u8)
    } else if 97 <= b <= 102 {
        Some((b - 87) as u8)
    } else {
        None
    }
}

/// Bytes after replacing every `%` followed by two hex digits with the byte
/// they spell; everything else is kept as it is.
pub open spec fn pct_decode_bytes(b: Seq<u8>) -> Seq<u8>
    decreases b.len(),
{
    if b.len() == 0 {
        seq![]
    } else if b[0] == 37 && b.len() >= 3 && hex_val(b[1]) is Some && hex_val(b[2]) is Some {
        seq![(hex_val(b[1]).unwrap() * 16 + hex_val(b[2]).unwrap()) as u8] + pct_decode_bytes(
            b.skip(3),
        )
    } else {
        seq![b[0]] + pct_decode_bytes(b.skip(1))
    }
}

/// Percent-decoding of a string, when the decoded bytes are valid UTF-8.
pub open spec fn percent_decoded(s: Seq<char>) -> Option<Seq<char>> {
    let b = pct_decode_bytes(vstd::utf8::encode_utf8(s));
    if vstd::utf8::valid_utf8(b) {
        Some(vstd::utf8::decode_utf8(b))
    } else {
        None
    }
}

/// `percent_encoding::percent_decode_str(s).decode_utf8()`.
#[verifier::external_body]
pub fn percent_decode(s: &str) -> (r: Option<String>)
    ensures
        opt_view(r) == percent_decoded(s@),
{
    percent_encoding::percent_decode_str(s).decode_utf8().ok().map(|c| c.into_owned())
}

/// Upper-case hexadecimal digit of `n` (below 16).
pub open spec fn hex_digit(n: int) -> char {
    if n < 10 {
        (n + 48) as char
    } else {
        (n + 55) as char
    }
}

/// An ASCII letter or digit byte.
pub open spec fn is_alnum_byte(b: u8) -> bool {
    (48 <= b <= 57) || (65 <= b <= 90) || (97 <= b <= 122)
}

/// Every byte that is not an ASCII letter or digit written as `%XX`.
pub open spec fn pct_encode_bytes(b: Seq<u8>) -> Seq<char>
    decreases b.len(),
{
    if b.len() == 0 {
        seq![]
    } else {
        let x = b[0];
        (if is_alnum_byte(x) {
            seq![x as char]
        } else {
            seq!['%', hex_digit((x / 16) as int), hex_digit((x % 16) as int)]
        }) + pct_encode_bytes(b.skip(1))
    }
}

/// The query-string encoding of `q`: its UTF-8 bytes, each one that is not an
/// ASCII letter or digit percent-encoded (a space becomes `%20`).
pub open spec fn query_encoded(q: Seq<char>) -> Seq<char> {
    pct_encode_bytes(vstd::utf8::encode_utf8(q))
}

/// Encodes a query for a URL (`utf8_percent_encode` with `NON_ALPHANUMERIC`).
#[verifier::external_body]
pub fn encode_query_pct(q: &str) -> (r: String)
    ensures
        r@ == query_encoded(q@),
{
    percent_encoding::utf8_percent_encode(q, percent_encoding::NON_ALPHANUMERIC).to_string()
}

/// The bytes of a text made of ASCII characters.
pub open spec fn ascii_bytes(t: Seq<char>) -> Seq<u8> {
    t.map_values(|c: char| (c as u32) as u8)
}

/// Every character of the text is ASCII.
pub open spec fn all_ascii(t: Seq<char>) -> bool {
    forall|i: int| 0 <= i < t.len() ==> (#[trigger] t[i] as u32) < 128
}

proof fn lemma_encode_utf8_ascii(t: Seq<char>)
    requires
        all_ascii(t),
    ensures
        vstd::utf8::encode_utf8(t) == ascii_bytes(t),
    decreases t.len(),
{
    if t.len() > 0 {
        let rest = t.drop_first();
        assert(all_ascii(rest)) by {
            assert forall|i: int| 0 <= i < rest.len() implies (#[trigger] rest[i] as u32) < 128 by {
                assert(rest[i] == t[i + 1]);
            }
        }
        lemma_encode_utf8_ascii(rest);
        let v = t[0] as u32;
        assert(v < 128);
        assert((v & 0x7F) as u8 == v as u8) by (bit_vector)
            requires
                v < 128,
        ;
        assert(vstd::utf8::encode_scalar(v) =~= seq![v as u8]);
        assert(ascii_bytes(t) =~= seq![v as u8] + ascii_bytes(rest));
    }
}

proof fn lemma_hex_digit(n: int)
    requires
        0 <= n < 16,
    ensures
        (hex_digit(n) as u32) < 128,
        hex_val((hex_digit(n) as u32) as u8) == Some(n as u8),
{
}

proof fn lemma_pct_round_trip(b: Seq<u8>)
    ensures
        all_ascii(pct_encode_bytes(b)),
        pct_decode_bytes(ascii_bytes(pct_encode_bytes(b))) == b,
    decreases b.len(),
{
    if b.len() > 0 {
        let x = b[0];
        let rest = b.skip(1);
        lemma_pct_round_trip(rest);
        let tail = pct_encode_bytes(rest);
        let chunk = if is_alnum_byte(x) {
            seq![x as char]
        } else {
            seq!['%', hex_digit((x / 16) as int), hex_digit((x % 16) as int)]
        };
        assert(pct_encode_bytes(b) == chunk + tail);
        let bytes = ascii_bytes(chunk + tail);
        assert(bytes =~= ascii_bytes(chunk) + ascii_bytes(tail));
        if is_alnum_byte(x) {
            assert(((x as char) as u32) as u8 == x);
            assert(ascii_bytes(chunk) =~= seq![x]);
            assert(all_ascii(chunk + tail)) by {
                assert forall|i: int| 0 <= i < (chunk + tail).len() implies (#[trigger] (chunk
                    + tail)[i] as u32) < 128 by {
                    if i > 0 {
                        assert((chunk + tail)[i] == tail[i - 1]);
                    }
                }
            }
            assert(bytes.skip(1) =~= ascii_bytes(tail));
            assert(b =~= seq![x] + rest);
        } else {
            lemma_hex_digit((x / 16) as int);
            lemma_hex_digit((x % 16) as int);
            let h1 = ((hex_digit((x / 16) as int) as u32) as u8);
            let h2 = ((hex_digit((x % 16) as int) as u32) as u8);
            assert(ascii_bytes(chunk) =~= seq![37u8, h1, h2]);
            assert(all_ascii(chunk + tail)) by {
                assert forall|i: int| 0 <= i < (chunk + tail).len() implies (#[trigger] (chunk
                    + tail)[i] as u32) < 128 by {
                    if i > 2 {
                        assert((chunk + tail)[i] == tail[i - 3]);
                    }
                }
            }
            assert(((x / 16) as u8 * 16 + (x % 16) as u8) as u8 == x) by (nonlinear_arith);
            assert(bytes.skip(3) =~= ascii_bytes(tail));
            assert(b =~= seq![x] + rest);
        }
    }
}

/// Percent-decoding gives back what percent-encoding was given, so a value
/// stored encoded (the preferences cookie) reads back unchanged.
pub proof fn law_percent_round_trip(s: Seq<char>)
    ensures
        percent_decoded(query_encoded(s)) == Some(s),
{
    let b = vstd::utf8::encode_utf8(s);
    lemma_pct_round_trip(b);
    lemma_encode_utf8_ascii(pct_encode_bytes(b));
    vstd::utf8::encode_utf8_valid_utf8(s);
    vstd::utf8::encode_utf8_decode_utf8(s);
}

// ---- URLs ----

/// What `url::Url::parse(base)?.join(href)` serializes to.
pub uninterp spec fn joined_url(base: Seq<char>, href: Seq<char>) -> Option<Seq<char>>;

/// Resolves a link found in a page against the page URL.
#[verifier::external_body]
pub fn absolute_url(base: &str, href: &str) -> (r: Option<String>)
    ensures
        opt_view(r) == joined_url(base@, href@),
{
    let base = url::Url::parse(base).ok()?;
    base.join(href).ok().map(|u| u.to_string())
}

/// The parts of a parsed URL that the library reads.
pub struct UrlParts {
    /// `Url::host_str`.
    pub host: Option<String>,
    /// `Url::query_pairs`, decoded, in order.
    pub pairs: Vec<(String, String)>,
    /// `Url::path`.
    pub path: String,
    /// `Url::fragment`.
    pub fragment: Option<String>,
}

/// Views of decoded query pairs.
pub open spec fn pairs_view(v: Seq<(String, String)>) -> Seq<(Seq<char>, Seq<char>)> {
    v.map_values(|p: (String, String)| (p.0@, p.1@))
}

impl View for UrlParts {
    type V = (Option<Seq<char>>, Seq<(Seq<char>, Seq<char>)>, Seq<char>, Option<Seq<char>>);

    open spec fn view(&self) -> Self::V {
        (opt_view(self.host), pairs_view(self.pairs@), self.path@, opt_view(self.fragment))
    }
}

/// What `url::Url::parse(raw)` yields, read back as (host, decoded query
/// pairs, path, fragment); `None` when `raw` is not an absolute URL.
pub uninterp spec fn parsed_url(raw: Seq<char>) -> Option<
    (Option<Seq<char>>, Seq<(Seq<char>, Seq<char>)>, Seq<char>, Option<Seq<char>>),
>;

/// `url::Url::parse`, with the parsed URL read back into plain values.
#[verifier::external_body]
fn parse_url(raw: &str) -> (r: Option<UrlParts>)
    ensures
        match r {
            Some(p) => parsed_url(raw@) == Some(p@),
            None => parsed_url(raw@) is None,
        },
{
    let u = url::Url::parse(raw).ok()?;
    Some(UrlParts {
        host: u.host_str().map(String::from),
        pairs: u.query_pairs().map(|(k, v)| (k.into_owned(), v.into_owned())).collect(),
        path: u.path().to_string(),
        fragment: u.fragment().map(String::from),
    })
}

/// What `url::Url::parse(raw)` serializes to after `set_fragment(None)`
/// (`raw` itself when it does not parse).
pub uninterp spec fn url_without_fragment(raw: Seq<char>) -> Seq<char>;

/// What `url::Url::parse(raw)` serializes to after `set_query(None)` (`raw`
/// itself when it does not parse).
pub uninterp spec fn url_without_query(raw: Seq<char>) -> Seq<char>;

/// What `url::Url::parse(raw)` serializes to after
/// `query_pairs_mut().extend_pairs(pairs)`, which form-encodes the pairs
/// onto its query (`raw` itself when it does not parse).
pub uninterp spec fn url_with_pairs(raw: Seq<char>, pairs: Seq<(Seq<char>, Seq<char>)>) -> Seq<char>;

/// What `url::Url::parse(raw)` serializes to after `set_path(path)` (`raw`
/// itself when it does not parse).
pub uninterp spec fn url_with_path(raw: Seq<char>, path: Seq<char>) -> Seq<char>;

/// `Url::set_fragment(None)` on the URL `raw`.
#[verifier::external_body]
fn drop_fragment(raw: &str) -> (r: String)
    ensures
        r@ == url_without_fragment(raw@),
{
    let Ok(mut u) = url::Url::parse(raw) else { return raw.to_string() };
    u.set_fragment(None);
    u.to_string()
}

/// `Url::set_query(None)` on the URL `raw`.
#[verifier::external_body]
fn drop_query(raw: &str) -> (r: String)
    ensures
        r@ == url_without_query(raw@),
{
    let Ok(mut u) = url::Url::parse(raw) else { return raw.to_string() };
    u.set_query(None);
    u.to_string()
}

/// `Url::query_pairs_mut().extend_pairs(pairs)` on the URL `raw`.
#[verifier::external_body]
fn append_pairs(raw: &str, pairs: &Vec<(String, String)>) -> (r: String)
    ensures
        r@ == url_with_pairs(raw@, pairs_view(pairs@)),
{
    let Ok(mut u) = url::Url::parse(raw) else { return raw.to_string() };
    u.query_pairs_mut().extend_pairs(pairs.iter().map(|(k, v)| (k.as_str(), v.as_str())));
    u.to_string()
}

/// `Url::set_path(path)` on the URL `raw`.
#[verifier::external_body]
fn replace_path(raw: &str, path: &str) -> (r: String)
    ensures
        r@ == url_with_path(raw@, path@),
{
    let Ok(mut u) = url::Url::parse(raw) else { return raw.to_string() };
    u.set_path(path);
    u.to_string()
}

/// Value of the first query pair whose key is one of `keys` and whose value
/// is not empty.
pub open spec fn first_value(pairs: Seq<(Seq<char>, Seq<char>)>, keys: Seq<Seq<char>>) -> Option<
    Seq<char>,
>
    decreases pairs.len(),
{
    if pairs.len() == 0 {
        None
    } else if keys.contains(pairs[0].0) && pairs[0].1.len() > 0 {
        Some(pairs[0].1)
    } else {
        first_value(pairs.drop_first(), keys)
    }
}

fn key_in(k: &String, keys: &Vec<&str>) -> (r: bool)
    ensures
        r == keys@.map_values(|s: &str| s@).contains(k@),
{
    let ghost ks = keys@.map_values(|s: &str| s@);
    let mut i: usize = 0;
    while i < keys.len()
        invariant
            i <= keys@.len(),
            ks == keys@.map_values(|s: &str| s@),
            forall|j: int| 0 <= j < i ==> ks[j] != k@,
        decreases keys.len() - i,
    {
        if str_eq(k.as_str(), keys[i]) {
            assert(ks[i as int] == k@);
            return true;
        }
        i += 1;
    }
    false
}

fn first_value_of(pairs: &Vec<(String, String)>, keys: &Vec<&str>) -> (r: Option<String>)
    ensures
        opt_view(r) == first_value(pairs_view(pairs@), keys@.map_values(|s: &str| s@)),
{
    let ghost ks = keys@.map_values(|s: &str| s@);
    let ghost pv = pairs_view(pairs@);
    let mut i: usize = 0;
    assert(pv.skip(0) =~= pv);
    while i < pairs.len()
        invariant
            i <= pairs@.len(),
            ks == keys@.map_values(|s: &str| s@),
            pv == pairs_view(pairs@),
            first_value(pv, ks) == first_value(pv.skip(i as int), ks),
        decreases pairs.len() - i,
    {
        let ghost rest = pv.skip(i as int);
        assert(rest[0] == (pairs@[i as int].0@, pairs@[i as int].1@));
        assert(rest.drop_first() =~= pv.skip(i + 1));
        if key_in(&pairs[i].0, keys) && !pairs[i].1.as_str().is_empty() {
            return Some(pairs[i].1.clone());
        }
        i += 1;
    }
    assert(pv.skip(i as int).len() == 0);
    None
}

// ---- base64url redirect targets ----

/// `s` without its whitespace characters.
pub open spec fn drop_ws(s: Seq<char>) -> Seq<char>
    decreases s.len(),
{
    if s.len() == 0 {
        s
    } else if is_ws(s.last()) {
        drop_ws(s.drop_last())
    } else {
        drop_ws(s.drop_last()).push(s.last())
    }
}

/// The URL-safe base64 alphabet mapped onto the standard one.
pub open spec fn to_std_alphabet(s: Seq<char>) -> Seq<char> {
    s.map_values(
        |c: char|
            if c == '-' {
                '+'
            } else if c == '_' {
                '/'
            } else {
                c
            },
    )
}

/// `s` followed by as many `=` as make its UTF-8 length a multiple of 4.
pub open spec fn padded(s: Seq<char>) -> Seq<char> {
    let pad = (4 - ((utf8_len(s) as usize) % 4) as int) % 4;
    s + Seq::new(pad as nat, |i: int| '=')
}

/// What the `base64` crate's `STANDARD` engine decodes `s` to.
pub uninterp spec fn base64_standard(s: Seq<char>) -> Option<Seq<u8>>;

/// What the `base64` crate's `URL_SAFE` engine decodes `s` to.
pub uninterp spec fn base64_url_safe(s: Seq<char>) -> Option<Seq<u8>>;

pub open spec fn opt_bytes(o: Option<Vec<u8>>) -> Option<Seq<u8>> {
    match o {
        Some(v) => Some(v@),
        None => None,
    }
}

/// `base64::engine::general_purpose::STANDARD.decode`.
#[verifier::external_body]
fn decode_standard(s: &str) -> (r: Option<Vec<u8>>)
    ensures
        opt_bytes(r) == base64_standard(s@),
{
    base64::engine::general_purpose::STANDARD.decode(s).ok()
}

/// `base64::engine::general_purpose::URL_SAFE.decode`.
#[verifier::external_body]
fn decode_url_safe(s: &str) -> (r: Option<Vec<u8>>)
    ensures
        opt_bytes(r) == base64_url_safe(s@),
{
    base64::engine::general_purpose::URL_SAFE.decode(s).ok()
}

/// Decoding of a base64url redirect parameter (whitespace dropped, padding
/// added, standard alphabet tried first), when it yields UTF-8 text.
pub open spec fn base64_url_decoded(s: Seq<char>) -> Option<Seq<char>> {
    let cleaned = drop_ws(s);
    if cleaned.len() == 0 {
        None
    } else {
        let p = padded(to_std_alphabet(cleaned));
        let bytes = match base64_standard(p) {
            Some(b) => Some(b),
            None => base64_url_safe(p),
        };
        match bytes {
            Some(b) => if vstd::utf8::valid_utf8(b) {
                Some(vstd::utf8::decode_utf8(b))
            } else {
                None
            },
            None => None,
        }
    }
}

/// Decodes the base64url `url=` parameter of Baidu / Sogou / 360 redirect
/// links (unpadded).
pub fn decode_base64_url(s: &str) -> (r: Option<String>)
    ensures
        opt_view(r) == base64_url_decoded(s@),
{
    let v = str_chars(s);
    let mut cleaned: Vec<char> = Vec::new();
    let mut i: usize = 0;
    while i < v.len()
        invariant
            i <= v.len(),
            cleaned@ == drop_ws(v@.take(i as int)),
        decreases v.len() - i,
    {
        assert(v@.take(i + 1).drop_last() =~= v@.take(i as int));
        if !is_whitespace(v[i]) {
            cleaned.push(v[i]);
        }
        i += 1;
    }
    assert(v@.take(v@.len() as int) =~= v@);
    if cleaned.len() == 0 {
        return None;
    }
    let mut b64: Vec<char> = Vec::new();
    let mut j: usize = 0;
    while j < cleaned.len()
        invariant
            j <= cleaned.len(),
            b64@ == to_std_alphabet(cleaned@.take(j as int)),
        decreases cleaned.len() - j,
    {
        let c = cleaned[j];
        let m = if c == '-' {
            '+'
        } else if c == '_' {
            '/'
        } else {
            c
        };
        b64.push(m);
        j += 1;
        assert(b64@ =~= to_std_alphabet(cleaned@.take(j as int)));
    }
    assert(cleaned@.take(cleaned@.len() as int) =~= cleaned@);
    let b64_text = chars_to_string(b64.as_slice());
    let byte_len = b64_text.as_str().len();
    assert(byte_len == utf8_len(b64@) as usize);
    let pad = (4 - byte_len % 4) % 4;
    let ghost base = b64@;
    let mut k: usize = 0;
    while k < pad
        invariant
            k <= pad,
            pad < 4,
            b64@ == base + Seq::new(k as nat, |i: int| '='),
        decreases pad - k,
    {
        b64.push('=');
        k += 1;
        assert(b64@ =~= base + Seq::new(k as nat, |i: int| '='));
    }
    assert(b64@ =~= padded(to_std_alphabet(cleaned@)));
    let text = chars_to_string(b64.as_slice());
    let bytes = match decode_standard(text.as_str()) {
        Some(b) => b,
        None => match decode_url_safe(text.as_str()) {
            Some(b) => b,
            None => return None,
        },
    };
    utf8_decode(bytes)
}

// ---- redirect links ----

/// Percent-decodes a redirect target, keeping it as it is when that fails.
pub open spec fn decoded_or_raw(o: Option<Seq<char>>) -> Option<Seq<char>> {
    match o {
        Some(v) => match percent_decoded(v) {
            Some(d) => Some(d),
            None => Some(v),
        },
        None => None,
    }
}

/// The target a redirect link of `host` carries in its query, when the host
/// is one of the known redirectors.
pub open spec fn redirect_target(host: Seq<char>, pairs: Seq<(Seq<char>, Seq<char>)>) -> Option<
    Seq<char>,
> {
    if ends_with(host, "baidu.com"@) || ends_with(host, "sogou.com"@) || ends_with(
        host,
        "so.com"@,
    ) {
        match first_value(pairs, seq!["url"@]) {
            Some(v) => base64_url_decoded(v),
            None => None,
        }
    } else if host == "www.google.com"@ || host == "www.google.com.hk"@ || ends_with(
        host,
        "google.com"@,
    ) || ends_with(host, "google.co.jp"@) {
        decoded_or_raw(first_value(pairs, seq!["url"@, "q"@]))
    } else if ends_with(host, "bing.com"@) {
        decoded_or_raw(first_value(pairs, seq!["url"@]))
    } else if ends_with(host, "zhihu.com"@) || ends_with(host, "csdn.net"@) {
        decoded_or_raw(first_value(pairs, seq!["target"@]))
    } else if ends_with(host, "jianshu.com"@) {
        decoded_or_raw(first_value(pairs, seq!["url"@]))
    } else if ends_with(host, "duckduckgo.com"@) {
        decoded_or_raw(first_value(pairs, seq!["uddg"@]))
    } else {
        None
    }
}

/// An http(s) URL.
pub open spec fn is_http_url(t: Seq<char>) -> bool {
    starts_with(t, "http://"@) || starts_with(t, "https://"@)
}

/// The real destination of a search-engine redirect link; any other input
/// (including a redirect whose target is not an http(s) URL) is returned as it is.
pub open spec fn unredirect_spec(raw: Seq<char>) -> Seq<char> {
    match parsed_url(raw) {
        None => raw,
        Some(parts) => {
            let host = lowercase(
                match parts.0 {
                    Some(h) => h,
                    None => Seq::empty(),
                },
            );
            match redirect_target(host, parts.1) {
                Some(t) if is_http_url(t) => t,
                _ => raw,
            }
        },
    }
}

fn keys1(a: &'static str) -> (r: Vec<&'static str>)
    ensures
        r@.map_values(|s: &str| s@) == seq![a@],
{
    let r = vec![a];
    assert(r@.map_values(|s: &str| s@) =~= seq![a@]);
    r
}

fn decode_or_keep(o: Option<String>) -> (r: Option<String>)
    ensures
        opt_view(r) == decoded_or_raw(opt_view(o)),
{
    match o {
        Some(v) => match percent_decode(v.as_str()) {
            Some(d) => Some(d),
            None => Some(v),
        },
        None => None,
    }
}

/// Restores the real target URL of common search-engine redirect links
/// (Baidu / Sogou / 360 `link?url=`, Google `/url?q=`, Bing `/ck/a?url=`,
/// Zhihu / CSDN `link?target=`, Jianshu `go-wild?url=`, DuckDuckGo `uddg=`);
/// anything else is returned unchanged.
pub fn unredirect_url(raw: &str) -> (r: String)
    ensures
        r@ == unredirect_spec(raw@),
{
    let parts = match parse_url(raw) {
        Some(p) => p,
        None => return owned(raw),
    };
    let host = match &parts.host {
        Some(h) => to_lowercase(h.as_str()),
        None => to_lowercase(""),
    };
    proof {
        reveal_strlit("");
        assert(""@ =~= Seq::<char>::empty());
    }
    let h = host.as_str();
    let decoded: Option<String> = if str_ends_with(h, "baidu.com") || str_ends_with(h, "sogou.com")
        || str_ends_with(h, "so.com") {
        match first_value_of(&parts.pairs, &keys1("url")) {
            Some(v) => decode_base64_url(v.as_str()),
            None => None,
        }
    } else if str_eq(h, "www.google.com") || str_eq(h, "www.google.com.hk") || str_ends_with(
        h,
        "google.com",
    ) || str_ends_with(h, "google.co.jp") {
        let keys = vec!["url", "q"];
        assert(keys@.map_values(|s: &str| s@) =~= seq!["url"@, "q"@]);
        decode_or_keep(first_value_of(&parts.pairs, &keys))
    } else if str_ends_with(h, "bing.com") {
        decode_or_keep(first_value_of(&parts.pairs, &keys1("url")))
    } else if str_ends_with(h, "zhihu.com") || str_ends_with(h, "csdn.net") {
        decode_or_keep(first_value_of(&parts.pairs, &keys1("target")))
    } else if str_ends_with(h, "jianshu.com") {
        decode_or_keep(first_value_of(&parts.pairs, &keys1("url")))
    } else if str_ends_with(h, "duckduckgo.com") {
        decode_or_keep(first_value_of(&parts.pairs, &keys1("uddg")))
    } else {
        None
    };
    match decoded {
        Some(t) => {
            if str_starts_with(t.as_str(), "http://") || str_starts_with(t.as_str(), "https://") {
                t
            } else {
                owned(raw)
            }
        },
        None => owned(raw),
    }
}

/// `!ends_with(s, x)` (and so `s != x`) for any `s` ending with `suf`, given
/// that `suf` and `x` differ `t` characters from their ends.
proof fn lemma_suffix_differs(s: Seq<char>, suf: Seq<char>, x: Seq<char>, t: int)
    requires
        ends_with(s, suf),
        0 <= t < suf.len(),
        t < x.len(),
        suf[suf.len() - 1 - t] != x[x.len() - 1 - t],
    ensures
        !ends_with(s, x),
        s != x,
{
    assert(s.subrange(s.len() - suf.len(), s.len() as int)[suf.len() - 1 - t] == s[s.len() - 1 - t]);
    if ends_with(s, x) {
        assert(s.subrange(s.len() - x.len(), s.len() as int)[x.len() - 1 - t] == s[s.len() - 1 - t]);
    }
    if s == x {
        assert(x.subrange(0, x.len() as int) =~= x);
    }
}

/// The first pair with one of `keys` and a non-empty value is `pairs[j]`.
proof fn lemma_first_value_at(pairs: Seq<(Seq<char>, Seq<char>)>, keys: Seq<Seq<char>>, j: int)
    requires
        0 <= j < pairs.len(),
        keys.contains(pairs[j].0),
        pairs[j].1.len() > 0,
        forall|i: int| 0 <= i < j && #[trigger] keys.contains(pairs[i].0) ==> pairs[i].1.len() == 0,
    ensures
        first_value(pairs, keys) == Some(pairs[j].1),
    decreases j,
{
    if j > 0 {
        let q = pairs.drop_first();
        assert forall|i: int| 0 <= i < j - 1 && #[trigger] keys.contains(q[i].0) implies q[i].1.len() == 0 by {
            assert(q[i] == pairs[i + 1]);
        }
        lemma_first_value_at(q, keys, j - 1);
    }
}

proof fn lemma_redirect_via(
    raw: Seq<char>,
    h: Seq<char>,
    pairs: Seq<(Seq<char>, Seq<char>)>,
    path: Seq<char>,
    frag: Option<Seq<char>>,
    keys: Seq<Seq<char>>,
    j: int,
    t: Seq<char>,
)
    requires
        parsed_url(raw) == Some((Some(h), pairs, path, frag)),
        redirect_target(lowercase(h), pairs) == decoded_or_raw(first_value(pairs, keys)),
        0 <= j < pairs.len(),
        keys.contains(pairs[j].0),
        pairs[j].1.len() > 0,
        forall|i: int| 0 <= i < j && #[trigger] keys.contains(pairs[i].0) ==> pairs[i].1.len() == 0,
        percent_decoded(pairs[j].1) == Some(t) || (percent_decoded(pairs[j].1) is None && t == pairs[j].1),
        is_http_url(t),
    ensures
        unredirect_spec(raw) == t,
{
    lemma_first_value_at(pairs, keys, j);
}

/// Baidu's redirect link leads to its target: for a URL whose host ends with `baidu.com`
/// and whose first query pair with key `url` and a non-empty value is the
/// URL-safe base64 of an http(s) URL `t`, the restored URL is `t`.
pub proof fn law_baidu_target(
    raw: Seq<char>,
    h: Seq<char>,
    pairs: Seq<(Seq<char>, Seq<char>)>,
    path: Seq<char>,
    frag: Option<Seq<char>>,
    j: int,
    t: Seq<char>,
)
    requires
        parsed_url(raw) == Some((Some(h), pairs, path, frag)),
        ends_with(lowercase(h), "baidu.com"@),
        0 <= j < pairs.len(),
        pairs[j].0 == "url"@,
        pairs[j].1.len() > 0,
        forall|i: int| 0 <= i < j && pairs[i].0 == "url"@ ==> pairs[i].1.len() == 0,
        base64_url_decoded(pairs[j].1) == Some(t),
        is_http_url(t),
    ensures
        unredirect_spec(raw) == t,
{
    let host = lowercase(h);
    let keys = seq!["url"@];
    reveal_strlit("baidu.com");
    reveal_strlit("url");

    assert(keys[0] == "url"@);
    assert forall|i: int| 0 <= i < j && #[trigger] keys.contains(pairs[i].0) implies pairs[i].1.len() == 0 by {
        let n = choose|n: int| 0 <= n < keys.len() && keys[n] == pairs[i].0;
    }
    lemma_first_value_at(pairs, keys, j);
}

/// Sogou's redirect link leads to its target: for a URL whose host ends with `sogou.com`
/// and whose first query pair with key `url` and a non-empty value is the
/// URL-safe base64 of an http(s) URL `t`, the restored URL is `t`.
pub proof fn law_sogou_target(
    raw: Seq<char>,
    h: Seq<char>,
    pairs: Seq<(Seq<char>, Seq<char>)>,
    path: Seq<char>,
    frag: Option<Seq<char>>,
    j: int,
    t: Seq<char>,
)
    requires
        parsed_url(raw) == Some((Some(h), pairs, path, frag)),
        ends_with(lowercase(h), "sogou.com"@),
        0 <= j < pairs.len(),
        pairs[j].0 == "url"@,
        pairs[j].1.len() > 0,
        forall|i: int| 0 <= i < j && pairs[i].0 == "url"@ ==> pairs[i].1.len() == 0,
        base64_url_decoded(pairs[j].1) == Some(t),
        is_http_url(t),
    ensures
        unredirect_spec(raw) == t,
{
    let host = lowercase(h);
    let keys = seq!["url"@];
    reveal_strlit("sogou.com");
    reveal_strlit("url");

    assert(keys[0] == "url"@);
    assert forall|i: int| 0 <= i < j && #[trigger] keys.contains(pairs[i].0) implies pairs[i].1.len() == 0 by {
        let n = choose|n: int| 0 <= n < keys.len() && keys[n] == pairs[i].0;
    }
    lemma_first_value_at(pairs, keys, j);
}

/// 360 Search's redirect link leads to its target: for a URL whose host ends with `so.com`
/// and whose first query pair with key `url` and a non-empty value is the
/// URL-safe base64 of an http(s) URL `t`, the restored URL is `t`.
pub proof fn law_so360_target(
    raw: Seq<char>,
    h: Seq<char>,
    pairs: Seq<(Seq<char>, Seq<char>)>,
    path: Seq<char>,
    frag: Option<Seq<char>>,
    j: int,
    t: Seq<char>,
)
    requires
        parsed_url(raw) == Some((Some(h), pairs, path, frag)),
        ends_with(lowercase(h), "so.com"@),
        0 <= j < pairs.len(),
        pairs[j].0 == "url"@,
        pairs[j].1.len() > 0,
        forall|i: int| 0 <= i < j && pairs[i].0 == "url"@ ==> pairs[i].1.len() == 0,
        base64_url_decoded(pairs[j].1) == Some(t),
        is_http_url(t),
    ensures
        unredirect_spec(raw) == t,
{
    let host = lowercase(h);
    let keys = seq!["url"@];
    reveal_strlit("so.com");
    reveal_strlit("url");

    assert(keys[0] == "url"@);
    assert forall|i: int| 0 <= i < j && #[trigger] keys.contains(pairs[i].0) implies pairs[i].1.len() == 0 by {
        let n = choose|n: int| 0 <= n < keys.len() && keys[n] == pairs[i].0;
    }
    lemma_first_value_at(pairs, keys, j);
}

/// Restoring a redirect gives back the URL itself or an http(s) URL.
pub proof fn law_unredirect_is_raw_or_http(raw: Seq<char>)
    ensures
        unredirect_spec(raw) == raw || is_http_url(unredirect_spec(raw)),
{
}

/// DuckDuckGo's redirect link (`duckduckgo.com/l/?uddg=...`) leads to its target: for a URL whose host ends with
/// `duckduckgo.com` and whose first query pair with key `uddg` and a non-empty
/// value percent-decodes to an http(s) URL `t` (or, not being valid
/// percent-encoding, is one), the restored URL is `t`.
pub proof fn law_duckduckgo_target(
    raw: Seq<char>,
    h: Seq<char>,
    pairs: Seq<(Seq<char>, Seq<char>)>,
    path: Seq<char>,
    frag: Option<Seq<char>>,
    j: int,
    t: Seq<char>,
)
    requires
        parsed_url(raw) == Some((Some(h), pairs, path, frag)),
        ends_with(lowercase(h), "duckduckgo.com"@),
        0 <= j < pairs.len(),
        pairs[j].0 == "uddg"@,
        pairs[j].1.len() > 0,
        forall|i: int| 0 <= i < j && (pairs[i].0 == "uddg"@) ==> pairs[i].1.len() == 0,
        percent_decoded(pairs[j].1) == Some(t) || (percent_decoded(pairs[j].1) is None && t == pairs[j].1),
        is_http_url(t),
    ensures
        unredirect_spec(raw) == t,
{
    let host = lowercase(h);
    let keys = seq!["uddg"@];
    reveal_strlit("baidu.com");
    reveal_strlit("bing.com");
    reveal_strlit("csdn.net");
    reveal_strlit("duckduckgo.com");
    reveal_strlit("google.co.jp");
    reveal_strlit("google.com");
    reveal_strlit("jianshu.com");
    reveal_strlit("so.com");
    reveal_strlit("sogou.com");
    reveal_strlit("www.google.com");
    reveal_strlit("www.google.com.hk");
    reveal_strlit("zhihu.com");
    reveal_strlit("uddg");
    lemma_suffix_differs(host, "duckduckgo.com"@, "baidu.com"@, 4);
    lemma_suffix_differs(host, "duckduckgo.com"@, "sogou.com"@, 4);
    lemma_suffix_differs(host, "duckduckgo.com"@, "so.com"@, 5);
    lemma_suffix_differs(host, "duckduckgo.com"@, "www.google.com"@, 4);
    lemma_suffix_differs(host, "duckduckgo.com"@, "www.google.com.hk"@, 0);
    lemma_suffix_differs(host, "duckduckgo.com"@, "google.com"@, 4);
    lemma_suffix_differs(host, "duckduckgo.com"@, "google.co.jp"@, 0);
    lemma_suffix_differs(host, "duckduckgo.com"@, "bing.com"@, 4);
    lemma_suffix_differs(host, "duckduckgo.com"@, "zhihu.com"@, 4);
    lemma_suffix_differs(host, "duckduckgo.com"@, "csdn.net"@, 0);
    lemma_suffix_differs(host, "duckduckgo.com"@, "jianshu.com"@, 4);
    assert(keys.contains(pairs[j].0)) by {
        if pairs[j].0 == "uddg"@ { assert(keys[0] == "uddg"@); }
    }
    assert forall|i: int| 0 <= i < j && #[trigger] keys.contains(pairs[i].0) implies pairs[i].1.len() == 0 by {
        let n = choose|n: int| 0 <= n < keys.len() && keys[n] == pairs[i].0;
        assert(pairs[i].0 == "uddg"@);
    }
    lemma_redirect_via(raw, h, pairs, path, frag, keys, j, t);
}

/// Bing's redirect link leads to its target: for a URL whose host ends with
/// `bing.com` and whose first query pair with key `url` and a non-empty
/// value percent-decodes to an http(s) URL `t` (or, not being valid
/// percent-encoding, is one), the restored URL is `t`.
pub proof fn law_bing_target(
    raw: Seq<char>,
    h: Seq<char>,
    pairs: Seq<(Seq<char>, Seq<char>)>,
    path: Seq<char>,
    frag: Option<Seq<char>>,
    j: int,
    t: Seq<char>,
)
    requires
        parsed_url(raw) == Some((Some(h), pairs, path, frag)),
        ends_with(lowercase(h), "bing.com"@),
        0 <= j < pairs.len(),
        pairs[j].0 == "url"@,
        pairs[j].1.len() > 0,
        forall|i: int| 0 <= i < j && (pairs[i].0 == "url"@) ==> pairs[i].1.len() == 0,
        percent_decoded(pairs[j].1) == Some(t) || (percent_decoded(pairs[j].1) is None && t == pairs[j].1),
        is_http_url(t),
    ensures
        unredirect_spec(raw) == t,
{
    let host = lowercase(h);
    let keys = seq!["url"@];
    reveal_strlit("baidu.com");
    reveal_strlit("bing.com");
    reveal_strlit("google.co.jp");
    reveal_strlit("google.com");
    reveal_strlit("so.com");
    reveal_strlit("sogou.com");
    reveal_strlit("www.google.com");
    reveal_strlit("www.google.com.hk");
    reveal_strlit("url");
    lemma_suffix_differs(host, "bing.com"@, "baidu.com"@, 4);
    lemma_suffix_differs(host, "bing.com"@, "sogou.com"@, 4);
    lemma_suffix_differs(host, "bing.com"@, "so.com"@, 4);
    lemma_suffix_differs(host, "bing.com"@, "www.google.com"@, 4);
    lemma_suffix_differs(host, "bing.com"@, "www.google.com.hk"@, 0);
    lemma_suffix_differs(host, "bing.com"@, "google.com"@, 4);
    lemma_suffix_differs(host, "bing.com"@, "google.co.jp"@, 0);
    assert(keys.contains(pairs[j].0)) by {
        if pairs[j].0 == "url"@ { assert(keys[0] == "url"@); }
    }
    assert forall|i: int| 0 <= i < j && #[trigger] keys.contains(pairs[i].0) implies pairs[i].1.len() == 0 by {
        let n = choose|n: int| 0 <= n < keys.len() && keys[n] == pairs[i].0;
        assert(pairs[i].0 == "url"@);
    }
    lemma_redirect_via(raw, h, pairs, path, frag, keys, j, t);
}

/// Zhihu's outbound link (`link.zhihu.com/?target=...`) leads to its target: for a URL whose host ends with
/// `zhihu.com` and whose first query pair with key `target` and a non-empty
/// value percent-decodes to an http(s) URL `t` (or, not being valid
/// percent-encoding, is one), the restored URL is `t`.
pub proof fn law_zhihu_target(
    raw: Seq<char>,
    h: Seq<char>,
    pairs: Seq<(Seq<char>, Seq<char>)>,
    path: Seq<char>,
    frag: Option<Seq<char>>,
    j: int,
    t: Seq<char>,
)
    requires
        parsed_url(raw) == Some((Some(h), pairs, path, frag)),
        ends_with(lowercase(h), "zhihu.com"@),
        0 <= j < pairs.len(),
        pairs[j].0 == "target"@,
        pairs[j].1.len() > 0,
        forall|i: int| 0 <= i < j && (pairs[i].0 == "target"@) ==> pairs[i].1.len() == 0,
        percent_decoded(pairs[j].1) == Some(t) || (percent_decoded(pairs[j].1) is None && t == pairs[j].1),
        is_http_url(t),
    ensures
        unredirect_spec(raw) == t,
{
    let host = lowercase(h);
    let keys = seq!["target"@];
    reveal_strlit("baidu.com");
    reveal_strlit("bing.com");
    reveal_strlit("google.co.jp");
    reveal_strlit("google.com");
    reveal_strlit("so.com");
    reveal_strlit("sogou.com");
    reveal_strlit("www.google.com");
    reveal_strlit("www.google.com.hk");
    reveal_strlit("zhihu.com");
    reveal_strlit("target");
    lemma_suffix_differs(host, "zhihu.com"@, "baidu.com"@, 5);
    lemma_suffix_differs(host, "zhihu.com"@, "sogou.com"@, 5);
    lemma_suffix_differs(host, "zhihu.com"@, "so.com"@, 4);
    lemma_suffix_differs(host, "zhihu.com"@, "www.google.com"@, 4);
    lemma_suffix_differs(host, "zhihu.com"@, "www.google.com.hk"@, 0);
    lemma_suffix_differs(host, "zhihu.com"@, "google.com"@, 4);
    lemma_suffix_differs(host, "zhihu.com"@, "google.co.jp"@, 0);
    lemma_suffix_differs(host, "zhihu.com"@, "bing.com"@, 4);
    assert(keys.contains(pairs[j].0)) by {
        if pairs[j].0 == "target"@ { assert(keys[0] == "target"@); }
    }
    assert forall|i: int| 0 <= i < j && #[trigger] keys.contains(pairs[i].0) implies pairs[i].1.len() == 0 by {
        let n = choose|n: int| 0 <= n < keys.len() && keys[n] == pairs[i].0;
        assert(pairs[i].0 == "target"@);
    }
    lemma_redirect_via(raw, h, pairs, path, frag, keys, j, t);
}

/// CSDN's outbound link leads to its target: for a URL whose host ends with
/// `csdn.net` and whose first query pair with key `target` and a non-empty
/// value percent-decodes to an http(s) URL `t` (or, not being valid
/// percent-encoding, is one), the restored URL is `t`.
pub proof fn law_csdn_target(
    raw: Seq<char>,
    h: Seq<char>,
    pairs: Seq<(Seq<char>, Seq<char>)>,
    path: Seq<char>,
    frag: Option<Seq<char>>,
    j: int,
    t: Seq<char>,
)
    requires
        parsed_url(raw) == Some((Some(h), pairs, path, frag)),
        ends_with(lowercase(h), "csdn.net"@),
        0 <= j < pairs.len(),
        pairs[j].0 == "target"@,
        pairs[j].1.len() > 0,
        forall|i: int| 0 <= i < j && (pairs[i].0 == "target"@) ==> pairs[i].1.len() == 0,
        percent_decoded(pairs[j].1) == Some(t) || (percent_decoded(pairs[j].1) is None && t == pairs[j].1),
        is_http_url(t),
    ensures
        unredirect_spec(raw) == t,
{
    let host = lowercase(h);
    let keys = seq!["target"@];
    reveal_strlit("baidu.com");
    reveal_strlit("bing.com");
    reveal_strlit("csdn.net");
    reveal_strlit("google.co.jp");
    reveal_strlit("google.com");
    reveal_strlit("so.com");
    reveal_strlit("sogou.com");
    reveal_strlit("www.google.com");
    reveal_strlit("www.google.com.hk");
    reveal_strlit("target");
    lemma_suffix_differs(host, "csdn.net"@, "baidu.com"@, 0);
    lemma_suffix_differs(host, "csdn.net"@, "sogou.com"@, 0);
    lemma_suffix_differs(host, "csdn.net"@, "so.com"@, 0);
    lemma_suffix_differs(host, "csdn.net"@, "www.google.com"@, 0);
    lemma_suffix_differs(host, "csdn.net"@, "www.google.com.hk"@, 0);
    lemma_suffix_differs(host, "csdn.net"@, "google.com"@, 0);
    lemma_suffix_differs(host, "csdn.net"@, "google.co.jp"@, 0);
    lemma_suffix_differs(host, "csdn.net"@, "bing.com"@, 0);
    assert(keys.contains(pairs[j].0)) by {
        if pairs[j].0 == "target"@ { assert(keys[0] == "target"@); }
    }
    assert forall|i: int| 0 <= i < j && #[trigger] keys.contains(pairs[i].0) implies pairs[i].1.len() == 0 by {
        let n = choose|n: int| 0 <= n < keys.len() && keys[n] == pairs[i].0;
        assert(pairs[i].0 == "target"@);
    }
    lemma_redirect_via(raw, h, pairs, path, frag, keys, j, t);
}

/// Jianshu's outbound link leads to its target: for a URL whose host ends with
/// `jianshu.com` and whose first query pair with key `url` and a non-empty
/// value percent-decodes to an http(s) URL `t` (or, not being valid
/// percent-encoding, is one), the restored URL is `t`.
pub proof fn law_jianshu_target(
    raw: Seq<char>,
    h: Seq<char>,
    pairs: Seq<(Seq<char>, Seq<char>)>,
    path: Seq<char>,
    frag: Option<Seq<char>>,
    j: int,
    t: Seq<char>,
)
    requires
        parsed_url(raw) == Some((Some(h), pairs, path, frag)),
        ends_with(lowercase(h), "jianshu.com"@),
        0 <= j < pairs.len(),
        pairs[j].0 == "url"@,
        pairs[j].1.len() > 0,
        forall|i: int| 0 <= i < j && (pairs[i].0 == "url"@) ==> pairs[i].1.len() == 0,
        percent_decoded(pairs[j].1) == Some(t) || (percent_decoded(pairs[j].1) is None && t == pairs[j].1),
        is_http_url(t),
    ensures
        unredirect_spec(raw) == t,
{
    let host = lowercase(h);
    let keys = seq!["url"@];
    reveal_strlit("baidu.com");
    reveal_strlit("bing.com");
    reveal_strlit("csdn.net");
    reveal_strlit("google.co.jp");
    reveal_strlit("google.com");
    reveal_strlit("jianshu.com");
    reveal_strlit("so.com");
    reveal_strlit("sogou.com");
    reveal_strlit("www.google.com");
    reveal_strlit("www.google.com.hk");
    reveal_strlit("zhihu.com");
    reveal_strlit("url");
    lemma_suffix_differs(host, "jianshu.com"@, "baidu.com"@, 5);
    lemma_suffix_differs(host, "jianshu.com"@, "sogou.com"@, 5);
    lemma_suffix_differs(host, "jianshu.com"@, "so.com"@, 4);
    lemma_suffix_differs(host, "jianshu.com"@, "www.google.com"@, 4);
    lemma_suffix_differs(host, "jianshu.com"@, "www.google.com.hk"@, 0);
    lemma_suffix_differs(host, "jianshu.com"@, "google.com"@, 4);
    lemma_suffix_differs(host, "jianshu.com"@, "google.co.jp"@, 0);
    lemma_suffix_differs(host, "jianshu.com"@, "bing.com"@, 4);
    lemma_suffix_differs(host, "jianshu.com"@, "zhihu.com"@, 6);
    lemma_suffix_differs(host, "jianshu.com"@, "csdn.net"@, 0);
    assert(keys.contains(pairs[j].0)) by {
        if pairs[j].0 == "url"@ { assert(keys[0] == "url"@); }
    }
    assert forall|i: int| 0 <= i < j && #[trigger] keys.contains(pairs[i].0) implies pairs[i].1.len() == 0 by {
        let n = choose|n: int| 0 <= n < keys.len() && keys[n] == pairs[i].0;
        assert(pairs[i].0 == "url"@);
    }
    lemma_redirect_via(raw, h, pairs, path, frag, keys, j, t);
}

/// Google's redirect link (`google.com/url?q=...`) leads to its target: for a URL whose host ends with
/// `google.com` and whose first query pair with key `url` or `q` and a non-empty
/// value percent-decodes to an http(s) URL `t` (or, not being valid
/// percent-encoding, is one), the restored URL is `t`.
pub proof fn law_google_target(
    raw: Seq<char>,
    h: Seq<char>,
    pairs: Seq<(Seq<char>, Seq<char>)>,
    path: Seq<char>,
    frag: Option<Seq<char>>,
    j: int,
    t: Seq<char>,
)
    requires
        parsed_url(raw) == Some((Some(h), pairs, path, frag)),
        ends_with(lowercase(h), "google.com"@),
        0 <= j < pairs.len(),
        pairs[j].0 == "url"@ || pairs[j].0 == "q"@,
        pairs[j].1.len() > 0,
        forall|i: int| 0 <= i < j && (pairs[i].0 == "url"@ || pairs[i].0 == "q"@) ==> pairs[i].1.len() == 0,
        percent_decoded(pairs[j].1) == Some(t) || (percent_decoded(pairs[j].1) is None && t == pairs[j].1),
        is_http_url(t),
    ensures
        unredirect_spec(raw) == t,
{
    let host = lowercase(h);
    let keys = seq!["url"@, "q"@];
    reveal_strlit("baidu.com");
    reveal_strlit("google.com");
    reveal_strlit("so.com");
    reveal_strlit("sogou.com");
    reveal_strlit("url");
    reveal_strlit("q");
    lemma_suffix_differs(host, "google.com"@, "baidu.com"@, 4);
    lemma_suffix_differs(host, "google.com"@, "sogou.com"@, 4);
    lemma_suffix_differs(host, "google.com"@, "so.com"@, 4);
    assert(keys.contains(pairs[j].0)) by {
        if pairs[j].0 == "url"@ { assert(keys[0] == "url"@); }
        if pairs[j].0 == "q"@ { assert(keys[1] == "q"@); }
    }
    assert forall|i: int| 0 <= i < j && #[trigger] keys.contains(pairs[i].0) implies pairs[i].1.len() == 0 by {
        let n = choose|n: int| 0 <= n < keys.len() && keys[n] == pairs[i].0;
        assert(pairs[i].0 == "url"@ || pairs[i].0 == "q"@);
    }
    lemma_redirect_via(raw, h, pairs, path, frag, keys, j, t);
}

// ---- URL normalization ----

/// Query keys that only track where a click came from.
pub open spec fn tracking_keys() -> Seq<Seq<char>> {
    seq![
        "utm_source"@,
        "utm_medium"@,
        "utm_campaign"@,
        "utm_term"@,
        "utm_content"@,
        "fbclid"@,
        "gclid"@,
        "yclid"@,
        "ref"@,
        "spm"@,
        "share_source"@,
        "share_medium"@,
    ]
}

fn tracking_key_list() -> (r: Vec<&'static str>)
    ensures
        r@.map_values(|s: &str| s@) == tracking_keys(),
{
    let r = vec![
        "utm_source",
        "utm_medium",
        "utm_campaign",
        "utm_term",
        "utm_content",
        "fbclid",
        "gclid",
        "yclid",
        "ref",
        "spm",
        "share_source",
        "share_medium",
    ];
    assert(r@.map_values(|s: &str| s@) =~= tracking_keys());
    r
}

/// The query pairs whose key is not a tracking key, in order.
pub open spec fn kept_pairs(pairs: Seq<(Seq<char>, Seq<char>)>) -> Seq<(Seq<char>, Seq<char>)>
    decreases pairs.len(),
{
    if pairs.len() == 0 {
        pairs
    } else {
        let rest = kept_pairs(pairs.drop_last());
        if tracking_keys().contains(pairs.last().0) {
            rest
        } else {
            rest.push(pairs.last())
        }
    }
}

/// The query keys that only record where a click came from: the `utm_*`
/// campaign keys, the ad click ids, `ref`, `spm` and the share markers.
pub open spec fn is_click_tracking_key(k: Seq<char>) -> bool {
    ||| k == "utm_source"@
    || k == "utm_medium"@
    || k == "utm_campaign"@
    || k == "utm_term"@
    || k == "utm_content"@
    || k == "fbclid"@
    || k == "gclid"@
    || k == "yclid"@
    || k == "ref"@
    || k == "spm"@
    || k == "share_source"@
    || k == "share_medium"@
}

proof fn lemma_tracking_keys_are_click_keys(k: Seq<char>)
    ensures
        tracking_keys().contains(k) <==> is_click_tracking_key(k),
{
    let t = tracking_keys();
    if is_click_tracking_key(k) {
        if k == "utm_source"@ { assert(t[0] == k); }
        if k == "utm_medium"@ { assert(t[1] == k); }
        if k == "utm_campaign"@ { assert(t[2] == k); }
        if k == "utm_term"@ { assert(t[3] == k); }
        if k == "utm_content"@ { assert(t[4] == k); }
        if k == "fbclid"@ { assert(t[5] == k); }
        if k == "gclid"@ { assert(t[6] == k); }
        if k == "yclid"@ { assert(t[7] == k); }
        if k == "ref"@ { assert(t[8] == k); }
        if k == "spm"@ { assert(t[9] == k); }
        if k == "share_source"@ { assert(t[10] == k); }
        if k == "share_medium"@ { assert(t[11] == k); }
    }
    if t.contains(k) {
        let n = choose|n: int| 0 <= n < t.len() && t[n] == k;
        assert(0 <= n < 12);
    }
}

/// Normalising drops exactly the click-tracking pairs: no kept pair has a
/// tracking key, every other pair is kept, and a query without tracking
/// pairs is kept whole, in its order.
pub proof fn law_kept_pairs_drop_tracking(pairs: Seq<(Seq<char>, Seq<char>)>)
    ensures
        forall|j: int|
            0 <= j < kept_pairs(pairs).len() ==> !is_click_tracking_key(#[trigger] kept_pairs(pairs)[j].0),
        forall|i: int|
            0 <= i < pairs.len() && !is_click_tracking_key(#[trigger] pairs[i].0) ==> kept_pairs(
                pairs,
            ).contains(pairs[i]),
        (forall|i: int| 0 <= i < pairs.len() ==> !is_click_tracking_key(#[trigger] pairs[i].0))
            ==> kept_pairs(pairs) == pairs,
    decreases pairs.len(),
{
    if pairs.len() > 0 {
        let p = pairs.drop_last();
        law_kept_pairs_drop_tracking(p);
        let kp = kept_pairs(p);
        let k = kept_pairs(pairs);
        let x = pairs.last();
        lemma_tracking_keys_are_click_keys(x.0);
        assert(pairs[pairs.len() - 1] == x);
        assert forall|j: int| 0 <= j < k.len() implies !is_click_tracking_key(#[trigger] k[j].0) by {
            if j < kp.len() {
                assert(k[j] == kp[j]);
            }
        }
        assert forall|i: int|
            0 <= i < pairs.len() && !is_click_tracking_key(#[trigger] pairs[i].0) implies k.contains(
                pairs[i],
            ) by {
            if i < p.len() {
                assert(pairs[i] == p[i]);
                assert(kp.contains(p[i]));
                let n = choose|n: int| 0 <= n < kp.len() && kp[n] == p[i];
                assert(k[n] == kp[n]);
            } else {
                assert(k[k.len() - 1] == x);
            }
        }
        if forall|i: int| 0 <= i < pairs.len() ==> !is_click_tracking_key(#[trigger] pairs[i].0) {
            assert forall|i: int| 0 <= i < p.len() implies !is_click_tracking_key(#[trigger] p[i].0) by {
                assert(p[i] == pairs[i]);
            }
            assert(!is_click_tracking_key(pairs[pairs.len() - 1].0));
            assert(kp.push(x) =~= pairs);
        }
    }
}

/// A URL that parses and has no click-tracking pair, no fragment and no
/// trailing slash after a longer path comes back unchanged.
pub proof fn law_normalize_keeps_clean_url(
    raw: Seq<char>,
    host: Option<Seq<char>>,
    pairs: Seq<(Seq<char>, Seq<char>)>,
    path: Seq<char>,
)
    requires
        parsed_url(raw) == Some((host, pairs, path, None::<Seq<char>>)),
        forall|i: int| 0 <= i < pairs.len() ==> !is_click_tracking_key(#[trigger] pairs[i].0),
        path.len() <= 1 || path.last() != '/',
    ensures
        normalize_spec(raw) == raw,
{
    law_kept_pairs_drop_tracking(pairs);
}

/// A path longer than "/" that ends with a slash.
pub open spec fn has_trailing_slash(path: Seq<char>) -> bool {
    path.len() > 1 && path.last() == '/'
}

/// The URL used as the identity of a result across sources: tracking
/// parameters, fragment and trailing slash removed; a URL that has none of
/// them, or does not parse, is returned unchanged.
pub open spec fn normalize_spec(raw: Seq<char>) -> Seq<char> {
    match parsed_url(raw) {
        None => raw,
        Some(parts) => {
            let pairs = parts.1;
            let path = parts.2;
            if kept_pairs(pairs) == pairs && parts.3 is None && !has_trailing_slash(path) {
                raw
            } else {
                let kept = kept_pairs(pairs);
                let cleared = url_without_query(url_without_fragment(raw));
                let with_pairs = if kept.len() > 0 {
                    url_with_pairs(cleared, kept)
                } else {
                    cleared
                };
                if has_trailing_slash(path) {
                    url_with_path(with_pairs, path.drop_last())
                } else {
                    with_pairs
                }
            }
        },
    }
}

proof fn lemma_kept_pairs_len(pairs: Seq<(Seq<char>, Seq<char>)>)
    ensures
        kept_pairs(pairs).len() <= pairs.len(),
        kept_pairs(pairs).len() == pairs.len() ==> kept_pairs(pairs) == pairs,
    decreases pairs.len(),
{
    if pairs.len() > 0 {
        lemma_kept_pairs_len(pairs.drop_last());
        if kept_pairs(pairs).len() == pairs.len() {
            assert(kept_pairs(pairs) =~= pairs);
        }
    }
}

/// Removes tracking parameters, the fragment and a trailing slash from a URL,
/// for cross-source de-duplication.
pub fn normalize_url(raw: &str) -> (r: String)
    ensures
        r@ == normalize_spec(raw@),
{
    let parts = match parse_url(raw) {
        Some(p) => p,
        None => return owned(raw),
    };
    let drop = tracking_key_list();
    let mut kept: Vec<(String, String)> = Vec::new();
    let mut i: usize = 0;
    while i < parts.pairs.len()
        invariant
            i <= parts.pairs@.len(),
            drop@.map_values(|s: &str| s@) == tracking_keys(),
            pairs_view(kept@) == kept_pairs(pairs_view(parts.pairs@).take(i as int)),
        decreases parts.pairs.len() - i,
    {
        let ghost pv = pairs_view(parts.pairs@);
        assert(pv.take(i + 1).drop_last() =~= pv.take(i as int));
        assert(pv.take(i + 1).last() == (parts.pairs@[i as int].0@, parts.pairs@[i as int].1@));
        if !key_in(&parts.pairs[i].0, &drop) {
            let k = parts.pairs[i].0.clone();
            let v = parts.pairs[i].1.clone();
            kept.push((k, v));
            assert(pairs_view(kept@) =~= kept_pairs(pv.take(i as int)).push(pv[i as int]));
        }
        i += 1;
    }
    let ghost pv = pairs_view(parts.pairs@);
    assert(pv.take(pv.len() as int) =~= pv);
    proof {
        lemma_kept_pairs_len(pv);
    }
    let path = str_chars(parts.path.as_str());
    let trailing = path.len() > 1 && path[path.len() - 1] == '/';
    let has_tracking = kept.len() != parts.pairs.len();
    if !has_tracking && parts.fragment.is_none() && !trailing {
        return owned(raw);
    }
    let cleared = drop_query(drop_fragment(raw).as_str());
    let with_pairs = if kept.len() > 0 {
        append_pairs(cleared.as_str(), &kept)
    } else {
        cleared
    };
    if trailing {
        let cut = slice_chars(&path, 0, path.len() - 1);
        let p = chars_to_string(cut.as_slice());
        assert(p@ == parts.path@.drop_last());
        replace_path(with_pairs.as_str(), p.as_str())
    } else {
        with_pairs
    }
}


// ---- request URLs ----

/// `head`, the encoded query, then `tail`.
pub fn query_url(head: &str, query: &str, tail: &str) -> (r: String)
    ensures
        r@ == head@ + query_encoded(query@) + tail@,
{
    let mut v = str_chars(head);
    push_str(&mut v, encode_query_pct(query).as_str());
    push_str(&mut v, tail);
    chars_to_string(v.as_slice())
}

/// `head`, the encoded query, `mid`, the decimal `n`, then `tail`.
pub fn query_url_n(head: &str, query: &str, mid: &str, n: u64, tail: &str) -> (r: String)
    ensures
        r@ == head@ + query_encoded(query@) + mid@ + decimal(n as nat) + tail@,
{
    let mut v = str_chars(head);
    push_str(&mut v, encode_query_pct(query).as_str());
    push_str(&mut v, mid);
    push_decimal(&mut v, n);
    push_str(&mut v, tail);
    chars_to_string(v.as_slice())
}


// ---- generic fallback extraction ----

/// A link element of a page.
#[derive(Debug)]
pub struct Anchor {
    /// All text below the link, concatenated.
    pub text: String,
    /// Its `href` attribute.
    pub href: Option<String>,
    /// All text below its parent element, when the parent is an element.
    pub parent_text: Option<String>,
}

/// Plain view of an [`Anchor`]: (text, href, parent text).
pub type AnchorView = (Seq<char>, Option<Seq<char>>, Option<Seq<char>>);

pub open spec fn anchors_view(v: Seq<Anchor>) -> Seq<AnchorView> {
    v.map_values(|a: Anchor| (a.text@, opt_view(a.href), opt_view(a.parent_text)))
}

/// What `scraper` reads from `html`: every element matching the CSS selector
/// `css`, in document order (empty when `css` does not parse).
pub uninterp spec fn html_anchors(html: Seq<char>, css: Seq<char>) -> Seq<AnchorView>;

/// `scraper::Html::parse_document`, `Selector::parse`, `select`, read back as plain values.
#[verifier::external_body]
fn select_anchors(html: &str, css: &str) -> (r: Vec<Anchor>)
    ensures
        anchors_view(r@) == html_anchors(html@, css@),
{
    let doc = scraper::Html::parse_document(html);
    let Ok(sel) = scraper::Selector::parse(css) else { return Vec::new() };
    doc.select(&sel).map(|a| Anchor {
        text: a.text().collect(),
        href: a.value().attr("href").map(String::from),
        parent_text: a.parent().and_then(scraper::ElementRef::wrap).map(|p| p.text().collect()),
    }).collect()
}

/// Navigation or account links, never results.
pub open spec fn junk_url(href: Seq<char>) -> bool {
    ||| contains(href, "/login"@)
    ||| contains(href, "passport"@)
    ||| contains(href, "/register"@)
    ||| contains(href, "javascript:"@)
    ||| contains(href, "#"@)
    ||| ends_with(href, "/search"@)
    ||| contains(href, "?page="@)
    ||| contains(href, "/settings"@)
}

fn is_junk_url(href: &str) -> (r: bool)
    ensures
        r == junk_url(href@),
{
    str_contains(href, "/login") || str_contains(href, "passport") || str_contains(
        href,
        "/register",
    ) || str_contains(href, "javascript:") || str_contains(href, "#") || str_ends_with(
        href,
        "/search",
    ) || str_contains(href, "?page=") || str_contains(href, "/settings")
}

/// Navigation labels.
pub open spec fn junk_titles() -> Seq<Seq<char>> {
    seq!["首页"@, "登录"@, "注册"@, "更多"@, "上一页"@, "下一页"@, "打开App"@, "下载"@, "意见反馈"@]
}

/// A navigation label, or digits only (page numbers).
pub open spec fn junk_title(t: Seq<char>) -> bool {
    junk_titles().contains(t) || forall|i: int| 0 <= i < t.len() ==> is_ascii_digit(#[trigger] t[i])
}

fn is_junk_title(t: &str) -> (r: bool)
    ensures
        r == junk_title(t@),
{
    let list = vec!["首页", "登录", "注册", "更多", "上一页", "下一页", "打开App", "下载", "意见反馈"];
    assert(list@.map_values(|s: &str| s@) =~= junk_titles());
    let mut i: usize = 0;
    while i < list.len()
        invariant
            i <= list@.len(),
            list@.map_values(|s: &str| s@) == junk_titles(),
            forall|j: int| 0 <= j < i ==> junk_titles()[j] != t@,
        decreases list.len() - i,
    {
        if str_eq(t, list[i]) {
            assert(junk_titles()[i as int] == t@);
            return true;
        }
        i += 1;
    }
    assert(!junk_titles().contains(t@));
    let cs = str_chars(t);
    let mut k: usize = 0;
    while k < cs.len()
        invariant
            k <= cs@.len(),
            cs@ == t@,
            !junk_titles().contains(t@),
            forall|j: int| 0 <= j < k ==> is_ascii_digit(#[trigger] cs@[j]),
        decreases cs.len() - k,
    {
        if !ascii_digit(cs[k]) {
            assert(!is_ascii_digit(t@[k as int]));
            return false;
        }
        k += 1;
    }
    true
}

/// `s` with the first occurrence of `pat` removed (`str::replacen(pat, "", 1)`).
pub open spec fn remove_first(s: Seq<char>, pat: Seq<char>) -> Seq<char> {
    match find(s, pat) {
        Some(p) => s.take(p) + s.skip(p + pat.len()),
        None => s,
    }
}

/// Anchors kept by the fallback extractor, as (title, url, snippet), with the
/// normalized URLs seen so far.
pub open spec fn anchor_scan(anchors: Seq<AnchorView>) -> (
    Seq<(Seq<char>, Seq<char>, Seq<char>)>,
    Seq<Seq<char>>,
)
    decreases anchors.len(),
{
    if anchors.len() == 0 {
        (seq![], seq![])
    } else {
        let prev = anchor_scan(anchors.drop_last());
        let a = anchors.last();
        let href = or_empty(a.1);
        let title = collapse_ws(a.0);
        let key = normalize_spec(href);
        if junk_url(href) || title.len() < 6 || junk_title(title) || prev.1.contains(key) {
            prev
        } else {
            let snippet = remove_first(collapse_ws(or_empty(a.2)), title);
            (
                prev.0.push((clip_spec(title, 200), href, clip_spec(snippet, 300))),
                prev.1.push(key),
            )
        }
    }
}

fn remove_first_of(s: &str, pat: &str) -> (r: String)
    ensures
        r@ == remove_first(s@, pat@),
{
    let v = str_chars(s);
    let p = str_chars(pat);
    match find_from_chars(&v, &p, 0) {
        Some(at) => {
            assert(v@.len() == v.len());
            let mut out = slice_chars(&v, 0, at);
            let tail = slice_chars(&v, at + p.len(), v.len());
            let mut i: usize = 0;
            let ghost head = out@;
            while i < tail.len()
                invariant
                    i <= tail@.len(),
                    out@ == head + tail@.take(i as int),
                decreases tail.len() - i,
            {
                out.push(tail[i]);
                i += 1;
                assert(out@ =~= head + tail@.take(i as int));
            }
            assert(tail@.take(tail@.len() as int) =~= tail@);
            assert(out@ =~= v@.take(at as int) + v@.skip(at + p@.len()));
            chars_to_string(out.as_slice())
        },
        None => owned(s),
    }
}

fn seen_contains(seen: &Vec<String>, key: &String) -> (r: bool)
    ensures
        r == seen@.map_values(|s: String| s@).contains(key@),
{
    let ghost sv = seen@.map_values(|s: String| s@);
    let mut i: usize = 0;
    while i < seen.len()
        invariant
            i <= seen@.len(),
            sv == seen@.map_values(|s: String| s@),
            forall|j: int| 0 <= j < i ==> sv[j] != key@,
        decreases seen.len() - i,
    {
        if str_eq(seen[i].as_str(), key.as_str()) {
            assert(sv[i as int] == key@);
            return true;
        }
        i += 1;
    }
    false
}

/// Fallback extraction from any (rendered) page: outbound `http` links with a
/// long enough text that is not navigation, de-duplicated by normalized URL,
/// the snippet being the parent's text without the title; the first `max`.
pub fn generic_extract(html: &str, source: &str, max: usize) -> (r: Vec<SearchResult>)
    ensures
        results_view(r@) == ranked(
            anchor_scan(html_anchors(html@, "a[href^='http']"@)).0,
            max as nat,
            source@,
        ),
{
    proof {
        reveal_strlit("");
        assert(""@ =~= Seq::<char>::empty());
    }
    let anchors = select_anchors(html, "a[href^='http']");
    let ghost av = anchors_view(anchors@);
    let mut items: Vec<(String, String, String)> = Vec::new();
    let mut seen: Vec<String> = Vec::new();
    let mut i: usize = 0;
    while i < anchors.len()
        invariant
            i <= anchors@.len(),
            av == anchors_view(anchors@),
            items@.map_values(|t: (String, String, String)| (t.0@, t.1@, t.2@)) == anchor_scan(
                av.take(i as int),
            ).0,
            seen@.map_values(|s: String| s@) == anchor_scan(av.take(i as int)).1,
            items@.len() <= max,
        ensures
            items@.map_values(|t: (String, String, String)| (t.0@, t.1@, t.2@)) == anchor_scan(
                av.take(i as int),
            ).0,
            items@.len() <= max,
            i == anchors@.len() || items@.len() >= max,
            i <= anchors@.len(),
        decreases anchors.len() - i,
    {
        if items.len() >= max {
            break;
        }
        proof {
            reveal_strlit("");
            assert(""@ =~= Seq::<char>::empty());
        }
        let ghost prev = anchor_scan(av.take(i as int));
        assert(av.take(i + 1).drop_last() =~= av.take(i as int));
        assert(av.take(i + 1).last() == av[i as int]);
        let a = &anchors[i];
        assert(av[i as int] == (a.text@, opt_view(a.href), opt_view(a.parent_text)));
        let href: &str = match &a.href {
            Some(h) => h.as_str(),
            None => "",
        };
        assert(href@ == or_empty(av[i as int].1));
        let title = clean_text(a.text.as_str());
        let key = normalize_url(href);
        let title_len = str_chars(title.as_str()).len();
        if is_junk_url(href) || title_len < 6 || is_junk_title(title.as_str()) || seen_contains(
            &seen,
            &key,
        ) {
        } else {
            let parent = match &a.parent_text {
                Some(p) => clean_text(p.as_str()),
                None => owned(""),
            };
            assert(parent@ == collapse_ws(or_empty(av[i as int].2)));
            let snippet = remove_first_of(parent.as_str(), title.as_str());
            let item = (clip(title.as_str(), 200), owned(href), clip(snippet.as_str(), 300));
            items.push(item);
            seen.push(key);
            assert(items@.map_values(|t: (String, String, String)| (t.0@, t.1@, t.2@)) =~= prev.0.push(
                (item.0@, item.1@, item.2@),
            ));
            assert(seen@.map_values(|s: String| s@) =~= prev.1.push(key@));
        }
        i += 1;
    }
    let ghost done = anchor_scan(av.take(i as int)).0;
    let ghost all = anchor_scan(av).0;
    proof {
        lemma_anchor_scan_prefix(av, i as int);
        if i == anchors.len() {
            assert(av.take(i as int) =~= av);
        }
    }
    let mut out: Vec<SearchResult> = Vec::new();
    let mut k: usize = 0;
    while k < items.len()
        invariant
            k <= items@.len(),
            items@.len() <= max,
            items@.map_values(|t: (String, String, String)| (t.0@, t.1@, t.2@)) == done,
            done == all.take(done.len() as int),
            done.len() <= all.len(),
            items@.len() == max || done == all,
            results_view(out@) == ranked(done, max as nat, source@).take(k as int),
            out@.len() == k,
            done.len() == items@.len(),
        decreases items.len() - k,
    {
        let t = &items[k];
        assert(done[k as int] == (t.0@, t.1@, t.2@));
        let r = SearchResult::new(t.0.clone(), t.1.clone(), t.2.clone(), source, k);
        let ghost prev = out@;
        out.push(r);
        assert forall|j: int| 0 <= j < out@.len() implies #[trigger] results_view(out@)[j]
            == ranked(done, max as nat, source@)[j] by {
            if j < k {
                assert(results_view(prev)[j] == ranked(done, max as nat, source@).take(k as int)[j]);
                assert(results_view(out@)[j] == out@[j]@);
                assert(results_view(prev)[j] == prev[j]@);
            } else {
                assert(results_view(out@)[j] == r@);
                assert(ranked(done, max as nat, source@)[j] == new_result(done[j].0, done[j].1, done[j].2, source@, j as nat));
            }
        }
        k += 1;
        assert(results_view(out@) =~= ranked(done, max as nat, source@).take(k as int));
    }
    assert(ranked(done, max as nat, source@).take(k as int) =~= ranked(all, max as nat, source@));
    out
}

/// Prefix property of [`anchor_scan`].
pub proof fn lemma_anchor_scan_prefix(anchors: Seq<AnchorView>, i: int)
    requires
        0 <= i <= anchors.len(),
    ensures
        anchor_scan(anchors.take(i)).0.len() <= anchor_scan(anchors).0.len(),
        anchor_scan(anchors.take(i)).0 == anchor_scan(anchors).0.take(
            anchor_scan(anchors.take(i)).0.len() as int,
        ),
    decreases anchors.len() - i,
{
    if i < anchors.len() {
        lemma_anchor_scan_prefix(anchors, i + 1);
        assert(anchors.take(i + 1).drop_last() =~= anchors.take(i));
        let a = anchor_scan(anchors.take(i)).0;
        let b = anchor_scan(anchors.take(i + 1)).0;
        let c = anchor_scan(anchors).0;
        assert(b.take(a.len() as int) =~= a);
        assert(c.take(b.len() as int).take(a.len() as int) =~= c.take(a.len() as int));
    } else {
        assert(anchors.take(i) =~= anchors);
        let c = anchor_scan(anchors).0;
        assert(c.take(c.len() as int) =~= c);
    }
}

// ---- error chains ----

/// An error rendered with its whole cause chain on one line, so that the
/// root cause (DNS timeout, connect timeout, TLS handshake failure, ...) is
/// not lost behind the outermost context.
pub trait ErrorChain {
    /// The messages of the error and of each of its causes, outermost first.
    spec fn messages(&self) -> Seq<Seq<char>>;

    /// The messages joined by " ← ".
    fn render_chain(&self) -> (r: String)
        ensures
            r@ == join(self.messages(), " ← "@),
    ;
}

/// The messages of an error and of each of its causes, outermost first.
#[derive(Debug, Clone)]
pub struct ErrorMessages {
    pub chain: Vec<String>,
}

impl ErrorChain for ErrorMessages {
    open spec fn messages(&self) -> Seq<Seq<char>> {
        strings_view(self.chain@)
    }

    fn render_chain(&self) -> (r: String) {
        let mut v: Vec<char> = Vec::new();
        push_joined(&mut v, &self.chain, " ← ");
        chars_to_string(v.as_slice())
    }
}

/// The one-line rendering of an error chain.
pub fn error_detail<E: ErrorChain>(err: &E) -> (r: String)
    ensures
        r@ == join(err.messages(), " ← "@),
{
    err.render_chain()
}

} // verus!
