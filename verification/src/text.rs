//! Character-level string model shared by the whole library.
//!
//! Strings are reasoned about through their view, a `Seq<char>`. The spec
//! functions here (whitespace, words, joining, trimming, affixes, substring
//! search) are the vocabulary the contracts of the other modules are written in.
use vstd::prelude::*;

verus! {

/// Unicode `White_Space` property (PropList.txt), which is what
/// `char::is_whitespace` tests.
pub open spec fn is_ws(c: char) -> bool {
    let u = c as u32;
    ||| 9 <= u <= 13
    ||| u == 32
    ||| u == 0x85
    ||| u == 0xA0
    ||| u == 0x1680
    ||| 0x2000 <= u <= 0x200A
    ||| u == 0x2028
    ||| u == 0x2029
    ||| u == 0x202F
    ||| u == 0x205F
    ||| u == 0x3000
}

/// Executable whitespace test.
pub fn is_whitespace(c: char) -> (r: bool)
    ensures
        r == is_ws(c),
{
    let u = c as u32;
    (9 <= u && u <= 13) || u == 32 || u == 0x85 || u == 0xA0 || u == 0x1680 || (0x2000 <= u && u
        <= 0x200A) || u == 0x2028 || u == 0x2029 || u == 0x202F || u == 0x205F || u == 0x3000
}

pub open spec fn is_ascii_digit(c: char) -> bool {
    '0' <= c <= '9'
}

pub open spec fn is_ascii_alnum(c: char) -> bool {
    ||| '0' <= c <= '9'
    ||| 'a' <= c <= 'z'
    ||| 'A' <= c <= 'Z'
}

pub fn ascii_digit(c: char) -> (r: bool)
    ensures
        r == is_ascii_digit(c),
{
    '0' <= c && c <= '9'
}

pub fn ascii_alnum(c: char) -> (r: bool)
    ensures
        r == is_ascii_alnum(c),
{
    ('0' <= c && c <= '9') || ('a' <= c && c <= 'z') || ('A' <= c && c <= 'Z')
}

/// The characters of a string slice, in order.
pub fn str_chars(s: &str) -> (r: Vec<char>)
    ensures
        r@ == s@,
{
    let mut out: Vec<char> = Vec::new();
    for c in it: s.chars()
        invariant
            out@ == it.seq().take(it.index() as int),
            it.seq() == s@,
    {
        out.push(c);
    }
    out
}

/// `String::from_iter` over a slice of characters.
#[verifier::external_body]
pub(crate) fn chars_to_string(v: &[char]) -> (r: String)
    ensures
        r@ == v@,
{
    v.iter().collect()
}

/// A string slice as an owned `String`.
pub fn owned(s: &str) -> (r: String)
    ensures
        r@ == s@,
{
    s.to_owned()
}

/// Maximal runs of non-whitespace characters, in order (what
/// `str::split_whitespace` yields).
pub open spec fn words(s: Seq<char>) -> Seq<Seq<char>>
    decreases s.len(),
{
    if s.len() == 0 {
        seq![]
    } else {
        let p = s.drop_last();
        let c = s.last();
        let w = words(p);
        if is_ws(c) {
            w
        } else if p.len() > 0 && !is_ws(p.last()) {
            w.update(w.len() - 1, w.last().push(c))
        } else {
            w.push(seq![c])
        }
    }
}

/// `parts[0] + sep + parts[1] + sep + ...` (what `[..].join(sep)` builds).
pub open spec fn join(parts: Seq<Seq<char>>, sep: Seq<char>) -> Seq<char>
    decreases parts.len(),
{
    if parts.len() == 0 {
        seq![]
    } else if parts.len() == 1 {
        parts[0]
    } else {
        join(parts.drop_last(), sep) + sep + parts.last()
    }
}

/// Whitespace collapsed: words joined by single spaces.
pub open spec fn collapse_ws(s: Seq<char>) -> Seq<char> {
    join(words(s), seq![' '])
}

pub proof fn lemma_words_nonempty(s: Seq<char>)
    requires
        s.len() > 0,
        !is_ws(s.last()),
    ensures
        words(s).len() > 0,
    decreases s.len(),
{
    let p = s.drop_last();
    if p.len() > 0 && !is_ws(p.last()) {
        lemma_words_nonempty(p);
    }
}

pub proof fn lemma_join_push(parts: Seq<Seq<char>>, w: Seq<char>, sep: Seq<char>)
    ensures
        join(parts.push(w), sep) == if parts.len() == 0 {
            w
        } else {
            join(parts, sep) + sep + w
        },
{
    assert(parts.push(w).drop_last() =~= parts);
}

pub proof fn lemma_join_extend(parts: Seq<Seq<char>>, c: char, sep: Seq<char>)
    requires
        parts.len() > 0,
    ensures
        join(parts.update(parts.len() - 1, parts.last().push(c)), sep) == join(parts, sep).push(c),
{
    let q = parts.update(parts.len() - 1, parts.last().push(c));
    if parts.len() == 1 {
        assert(join(q, sep) == q[0]);
    } else {
        assert(q.drop_last() =~= parts.drop_last());
        assert(join(q, sep) == join(parts.drop_last(), sep) + sep + q.last());
        assert((join(parts.drop_last(), sep) + sep + parts.last()).push(c) =~= join(
            parts.drop_last(),
            sep,
        ) + sep + parts.last().push(c));
    }
}

pub proof fn lemma_join_empty(parts: Seq<Seq<char>>, sep: Seq<char>)
    requires
        forall|i: int| 0 <= i < parts.len() ==> #[trigger] parts[i].len() > 0,
    ensures
        (join(parts, sep).len() == 0) == (parts.len() == 0),
    decreases parts.len(),
{
    if parts.len() > 1 {
        lemma_join_empty(parts.drop_last(), sep);
    }
}

/// Every word is non-empty and made of non-whitespace characters of `s`;
/// a property `f` of those characters carries over to the words.
pub proof fn lemma_words_chars(s: Seq<char>, f: spec_fn(char) -> bool)
    requires
        forall|j: int| 0 <= j < s.len() && !is_ws(#[trigger] s[j]) ==> f(s[j]),
    ensures
        forall|i: int|
            0 <= i < words(s).len() ==> (#[trigger] words(s)[i]).len() > 0 && forall|k: int|
                0 <= k < words(s)[i].len() ==> !is_ws(#[trigger] words(s)[i][k]) && f(
                    words(s)[i][k],
                ),
    decreases s.len(),
{
    if s.len() > 0 {
        let p = s.drop_last();
        let c = s.last();
        assert forall|j: int| 0 <= j < p.len() && !is_ws(#[trigger] p[j]) implies f(p[j]) by {
            assert(p[j] == s[j]);
        }
        lemma_words_chars(p, f);
        let w = words(p);
        if is_ws(c) {
        } else if p.len() > 0 && !is_ws(p.last()) {
            lemma_words_nonempty(p);
            let v = w.update(w.len() - 1, w.last().push(c));
            assert(f(c)) by {
                assert(c == s[s.len() - 1]);
            }
            assert forall|i: int| 0 <= i < v.len() implies (#[trigger] v[i]).len() > 0 && forall|
                k: int,
            | 0 <= k < v[i].len() ==> !is_ws(#[trigger] v[i][k]) && f(v[i][k]) by {
                if i == w.len() - 1 {
                    assert forall|k: int| 0 <= k < v[i].len() implies !is_ws(
                        #[trigger] v[i][k],
                    ) && f(v[i][k]) by {
                        if k < w[i].len() {
                            assert(v[i][k] == w[i][k]);
                        } else {
                            assert(v[i][k] == c);
                        }
                    }
                } else {
                    assert(v[i] == w[i]);
                }
            }
        } else {
            let v = w.push(seq![c]);
            assert(f(c)) by {
                assert(c == s[s.len() - 1]);
            }
            assert forall|i: int| 0 <= i < v.len() implies (#[trigger] v[i]).len() > 0 && forall|
                k: int,
            | 0 <= k < v[i].len() ==> !is_ws(#[trigger] v[i][k]) && f(v[i][k]) by {
                if i < w.len() {
                    assert(v[i] == w[i]);
                }
            }
        }
    }
}

/// Whether no character of `s` is whitespace.
pub open spec fn no_ws(s: Seq<char>) -> bool {
    forall|k: int| 0 <= k < s.len() ==> !is_ws(#[trigger] s[k])
}

/// A run of non-whitespace characters is one word, or none when empty.
pub proof fn lemma_words_plain(w: Seq<char>)
    requires
        no_ws(w),
    ensures
        words(w) == if w.len() == 0 {
            Seq::<Seq<char>>::empty()
        } else {
            seq![w]
        },
    decreases w.len(),
{
    if w.len() > 0 {
        let p = w.drop_last();
        assert(no_ws(p)) by {
            assert forall|k: int| 0 <= k < p.len() implies !is_ws(#[trigger] p[k]) by {
                assert(p[k] == w[k]);
            }
        }
        lemma_words_plain(p);
        assert(!is_ws(w[w.len() - 1]));
        if p.len() > 0 {
            assert(!is_ws(p[p.len() - 1]));
            assert(p.push(w.last()) =~= w);
        } else {
            assert(seq![w.last()] =~= w);
        }
    }
}

/// Appending a space and a run of non-whitespace characters adds that run
/// as one more word (or nothing when it is empty).
pub proof fn lemma_words_sep(a: Seq<char>, w: Seq<char>)
    requires
        no_ws(w),
    ensures
        words(a + seq![' '] + w) == if w.len() == 0 {
            words(a)
        } else {
            words(a).push(w)
        },
    decreases w.len(),
{
    let s = a + seq![' '] + w;
    if w.len() == 0 {
        assert(s.drop_last() =~= a);
        assert(is_ws(s.last())) by {
            assert(s.last() == ' ');
        }
    } else {
        let w0 = w.drop_last();
        let c = w.last();
        assert(no_ws(w0)) by {
            assert forall|k: int| 0 <= k < w0.len() implies !is_ws(#[trigger] w0[k]) by {
                assert(w0[k] == w[k]);
            }
        }
        lemma_words_sep(a, w0);
        let p = a + seq![' '] + w0;
        assert(s.drop_last() =~= p);
        assert(s.last() == c);
        assert(!is_ws(w[w.len() - 1]));
        if w0.len() == 0 {
            assert(p.last() == ' ');
            assert(is_ws(' '));
            assert(seq![c] =~= w);
        } else {
            assert(p.last() == w0.last());
            assert(!is_ws(w0[w0.len() - 1]));
            assert(w0.push(c) =~= w);
            let u = words(a).push(w0);
            assert(u.update(u.len() - 1, u.last().push(c)) =~= words(a).push(w));
        }
    }
}

/// Splitting words joined by single spaces gives the words back.
pub proof fn lemma_words_join(parts: Seq<Seq<char>>)
    requires
        forall|i: int|
            0 <= i < parts.len() ==> (#[trigger] parts[i]).len() > 0 && no_ws(parts[i]),
    ensures
        words(join(parts, seq![' '])) == parts,
    decreases parts.len(),
{
    if parts.len() == 0 {
        assert(words(seq![]) == Seq::<Seq<char>>::empty());
    } else if parts.len() == 1 {
        assert(parts[0].len() > 0 && no_ws(parts[0]));
        lemma_words_plain(parts[0]);
        assert(seq![parts[0]] =~= parts);
    } else {
        let q = parts.drop_last();
        assert forall|i: int| 0 <= i < q.len() implies (#[trigger] q[i]).len() > 0 && no_ws(
            q[i],
        ) by {
            assert(q[i] == parts[i]);
        }
        lemma_words_join(q);
        let l = parts.last();
        assert(l.len() > 0 && no_ws(l)) by {
            assert(parts[parts.len() - 1] == l);
        }
        lemma_words_sep(join(q, seq![' ']), l);
        assert(q.push(l) =~= parts);
    }
}

/// Collapsing whitespace twice is collapsing it once.
pub proof fn lemma_collapse_idempotent(s: Seq<char>)
    ensures
        collapse_ws(collapse_ws(s)) == collapse_ws(s),
{
    lemma_words_chars(s, |c: char| true);
    let w = words(s);
    assert forall|i: int| 0 <= i < w.len() implies (#[trigger] w[i]).len() > 0 && no_ws(w[i]) by {
        assert(w[i].len() > 0);
        assert forall|k: int| 0 <= k < w[i].len() implies !is_ws(#[trigger] w[i][k]) by {
            assert(!is_ws(words(s)[i][k]));
        }
    }
    lemma_words_join(w);
}

/// `c` with ASCII upper-case letters turned to lower case
/// (`char::to_ascii_lowercase`).
pub open spec fn ascii_lower(c: char) -> char {
    if 'A' <= c <= 'Z' {
        ((c as u32) + 32) as char
    } else {
        c
    }
}

/// Every character of `s` through [`ascii_lower`].
pub open spec fn ascii_lower_seq(s: Seq<char>) -> Seq<char> {
    s.map_values(|c: char| ascii_lower(c))
}

/// Executable [`ascii_lower_seq`].
pub fn ascii_lower_chars(v: &Vec<char>) -> (r: Vec<char>)
    ensures
        r@ == ascii_lower_seq(v@),
{
    let mut out: Vec<char> = Vec::new();
    let mut i: usize = 0;
    while i < v.len()
        invariant
            i <= v.len(),
            out@ == ascii_lower_seq(v@.take(i as int)),
        decreases v.len() - i,
    {
        let c = v[i];
        let l = if 'A' <= c && c <= 'Z' {
            char_from_lower(c)
        } else {
            c
        };
        out.push(l);
        i += 1;
        assert(ascii_lower_seq(v@.take(i as int)) =~= ascii_lower_seq(v@.take(i - 1)).push(l));
    }
    assert(v@.take(v@.len() as int) =~= v@);
    out
}

fn char_from_lower(c: char) -> (r: char)
    requires
        'A' <= c <= 'Z',
    ensures
        r == ascii_lower(c),
{
    let b: u8 = c as u8;
    (b + 32) as char
}

/// Whitespace collapsed on a character vector.
pub fn collapse_chars(s: &Vec<char>) -> (r: Vec<char>)
    ensures
        r@ == collapse_ws(s@),
{
    let mut out: Vec<char> = Vec::new();
    let mut i: usize = 0;
    while i < s.len()
        invariant
            i <= s.len(),
            out@ == collapse_ws(s@.take(i as int)),
            (out@.len() == 0) == (words(s@.take(i as int)).len() == 0),
        decreases s.len() - i,
    {
        let c = s[i];
        let ghost pre = s@.take(i as int);
        let ghost next = s@.take(i + 1);
        assert(next.drop_last() =~= pre);
        assert(next.last() == c);
        if is_whitespace(c) {
        } else if i > 0 && !is_whitespace(s[i - 1]) {
            proof {
                assert(pre.last() == s@[i - 1]);
                lemma_words_nonempty(pre);
                lemma_join_extend(words(pre), c, seq![' ']);
            }
            out.push(c);
        } else {
            proof {
                lemma_join_push(words(pre), seq![c], seq![' ']);
                if i > 0 {
                    assert(pre.last() == s@[i - 1]);
                }
            }
            if out.len() > 0 {
                out.push(' ');
            }
            out.push(c);
            proof {
                if words(pre).len() == 0 {
                    assert(out@ =~= seq![c]);
                } else {
                    assert(out@ =~= collapse_ws(pre) + seq![' '] + seq![c]);
                }
            }
        }
        i += 1;
    }
    assert(s@.take(s@.len() as int) =~= s@);
    out
}


/// `s` with trailing whitespace removed (`str::trim_end`).
pub open spec fn trim_end(s: Seq<char>) -> Seq<char>
    decreases s.len(),
{
    if s.len() > 0 && is_ws(s.last()) {
        trim_end(s.drop_last())
    } else {
        s
    }
}

/// `s` with leading whitespace removed (`str::trim_start`).
pub open spec fn trim_start(s: Seq<char>) -> Seq<char>
    decreases s.len(),
{
    if s.len() > 0 && is_ws(s[0]) {
        trim_start(s.drop_first())
    } else {
        s
    }
}

/// `s` with leading and trailing whitespace removed (`str::trim`).
pub open spec fn trim(s: Seq<char>) -> Seq<char> {
    trim_end(trim_start(s))
}

/// `s[lo..hi]` as a new vector.
pub fn slice_chars(v: &Vec<char>, lo: usize, hi: usize) -> (r: Vec<char>)
    requires
        lo <= hi <= v.len(),
    ensures
        r@ == v@.subrange(lo as int, hi as int),
{
    let mut out: Vec<char> = Vec::new();
    let mut i = lo;
    while i < hi
        invariant
            lo <= i <= hi <= v.len(),
            out@ == v@.subrange(lo as int, i as int),
        decreases hi - i,
    {
        out.push(v[i]);
        i += 1;
        assert(out@ =~= v@.subrange(lo as int, i as int));
    }
    out
}

/// Number of characters kept by `trim_end` on `v[..hi]`.
pub fn trim_end_len(v: &Vec<char>, hi: usize) -> (r: usize)
    requires
        hi <= v.len(),
    ensures
        r <= hi,
        trim_end(v@.take(hi as int)) == v@.take(r as int),
{
    let mut k = hi;
    while k > 0 && is_whitespace(v[k - 1])
        invariant
            k <= hi <= v.len(),
            trim_end(v@.take(hi as int)) == trim_end(v@.take(k as int)),
        decreases k,
    {
        assert(v@.take(k as int).drop_last() =~= v@.take(k - 1));
        k -= 1;
    }
    k
}

/// Trailing whitespace removed.
pub fn trim_end_chars(v: &Vec<char>) -> (r: Vec<char>)
    ensures
        r@ == trim_end(v@),
{
    let k = trim_end_len(v, v.len());
    assert(v@.take(v@.len() as int) =~= v@);
    slice_chars(v, 0, k)
}

/// Leading and trailing whitespace removed.
pub fn trim_chars(v: &Vec<char>) -> (r: Vec<char>)
    ensures
        r@ == trim(v@),
{
    let mut lo: usize = 0;
    assert(v@.subrange(0, v@.len() as int) =~= v@);
    while lo < v.len() && is_whitespace(v[lo])
        invariant
            lo <= v.len(),
            trim_start(v@) == trim_start(v@.subrange(lo as int, v@.len() as int)),
        decreases v.len() - lo,
    {
        assert(v@.subrange(lo as int, v@.len() as int).drop_first() =~= v@.subrange(
            lo + 1,
            v@.len() as int,
        ));
        lo += 1;
    }
    let rest = slice_chars(v, lo, v.len());
    rest_trim_end(&rest)
}

fn rest_trim_end(v: &Vec<char>) -> (r: Vec<char>)
    ensures
        r@ == trim_end(v@),
{
    trim_end_chars(v)
}

/// `pat` occurs in `s` starting at position `p`.
pub open spec fn matches_at(s: Seq<char>, p: int, pat: Seq<char>) -> bool {
    0 <= p && p + pat.len() <= s.len() && s.subrange(p, p + pat.len()) == pat
}

/// `s` ends with `suf`.
pub open spec fn ends_with(s: Seq<char>, suf: Seq<char>) -> bool {
    matches_at(s, s.len() - suf.len(), suf)
}

/// `s` starts with `pre`.
pub open spec fn starts_with(s: Seq<char>, pre: Seq<char>) -> bool {
    matches_at(s, 0, pre)
}

/// The last position below `n` at which `pat` occurs in `s`.
pub open spec fn last_match_below(s: Seq<char>, pat: Seq<char>, n: int) -> Option<int>
    decreases n,
{
    if n <= 0 {
        None
    } else if matches_at(s, n - 1, pat) {
        Some(n - 1)
    } else {
        last_match_below(s, pat, n - 1)
    }
}

/// Position of the last occurrence of `pat` in `s` (`str::rfind`).
pub open spec fn rfind(s: Seq<char>, pat: Seq<char>) -> Option<int> {
    last_match_below(s, pat, s.len() + 1int)
}

/// The first position at or after `p` at which `pat` occurs in `s`.
pub open spec fn first_match_from(s: Seq<char>, pat: Seq<char>, p: int) -> Option<int>
    decreases s.len() + 1 - p,
{
    if p < 0 || p > s.len() {
        None
    } else if matches_at(s, p, pat) {
        Some(p)
    } else {
        first_match_from(s, pat, p + 1)
    }
}

/// Position of the first occurrence of `pat` in `s` (`str::find`).
pub open spec fn find(s: Seq<char>, pat: Seq<char>) -> Option<int> {
    first_match_from(s, pat, 0)
}

/// `pat` occurs somewhere in `s` (`str::contains`).
pub open spec fn contains(s: Seq<char>, pat: Seq<char>) -> bool {
    find(s, pat) is Some
}

/// Executable `matches_at`.
pub fn match_at(v: &Vec<char>, p: usize, pat: &Vec<char>) -> (r: bool)
    ensures
        r == matches_at(v@, p as int, pat@),
{
    if p > v.len() || pat.len() > v.len() - p {
        return false;
    }
    let mut i: usize = 0;
    while i < pat.len()
        invariant
            p + pat.len() <= v.len(),
            i <= pat.len(),
            forall|j: int| 0 <= j < i ==> v@[p + j] == pat@[j],
        decreases pat.len() - i,
    {
        if v[p + i] != pat[i] {
            assert(v@.subrange(p as int, p + pat@.len())[i as int] != pat@[i as int]);
            return false;
        }
        i += 1;
    }
    assert(v@.subrange(p as int, p + pat@.len()) =~= pat@);
    true
}

/// Executable `ends_with`.
pub fn ends_with_chars(v: &Vec<char>, suf: &Vec<char>) -> (r: bool)
    ensures
        r == ends_with(v@, suf@),
{
    if suf.len() > v.len() {
        return false;
    }
    match_at(v, v.len() - suf.len(), suf)
}

/// Executable `starts_with`.
pub fn starts_with_chars(v: &Vec<char>, pre: &Vec<char>) -> (r: bool)
    ensures
        r == starts_with(v@, pre@),
{
    match_at(v, 0, pre)
}

/// Executable `rfind`.
pub fn rfind_chars(v: &Vec<char>, pat: &Vec<char>) -> (r: Option<usize>)
    ensures
        r matches Some(p) ==> rfind(v@, pat@) == Some(p as int) && matches_at(v@, p as int, pat@),
        r is None ==> rfind(v@, pat@) is None,
{
    let mut p: usize = v.len();
    loop
        invariant
            p <= v.len(),
            rfind(v@, pat@) == last_match_below(v@, pat@, p + 1),
        decreases p,
    {
        if match_at(v, p, pat) {
            return Some(p);
        }
        if p == 0 {
            assert(last_match_below(v@, pat@, 0) is None);
            return None;
        }
        p -= 1;
    }
}

/// Executable `find` starting at `from`.
pub fn find_from_chars(v: &Vec<char>, pat: &Vec<char>, from: usize) -> (r: Option<usize>)
    requires
        from <= v.len(),
    ensures
        r matches Some(p) ==> first_match_from(v@, pat@, from as int) == Some(p as int)
            && matches_at(v@, p as int, pat@) && from <= p,
        r is None ==> first_match_from(v@, pat@, from as int) is None,
{
    let mut p = from;
    loop
        invariant
            from <= p <= v.len(),
            first_match_from(v@, pat@, from as int) == first_match_from(v@, pat@, p as int),
        decreases v.len() - p,
    {
        if match_at(v, p, pat) {
            return Some(p);
        }
        if p == v.len() {
            assert(first_match_from(v@, pat@, p + 1) is None);
            return None;
        }
        p += 1;
    }
}

/// Executable `contains`.
pub fn contains_chars(v: &Vec<char>, pat: &Vec<char>) -> (r: bool)
    ensures
        r == contains(v@, pat@),
{
    find_from_chars(v, pat, 0).is_some()
}


/// Equality of two character vectors.
pub fn chars_eq(a: &Vec<char>, b: &Vec<char>) -> (r: bool)
    ensures
        r == (a@ == b@),
{
    if a.len() != b.len() {
        return false;
    }
    let r = match_at(a, 0, b);
    assert(a@ =~= a@.subrange(0, b@.len() as int));
    r
}

/// Equality of two string slices.
pub fn str_eq(a: &str, b: &str) -> (r: bool)
    ensures
        r == (a@ == b@),
{
    chars_eq(&str_chars(a), &str_chars(b))
}

/// `s` ends with `suf` (string slices).
pub fn str_ends_with(s: &str, suf: &str) -> (r: bool)
    ensures
        r == ends_with(s@, suf@),
{
    ends_with_chars(&str_chars(s), &str_chars(suf))
}

/// `s` starts with `pre` (string slices).
pub fn str_starts_with(s: &str, pre: &str) -> (r: bool)
    ensures
        r == starts_with(s@, pre@),
{
    starts_with_chars(&str_chars(s), &str_chars(pre))
}

/// `pat` occurs in `s` (string slices).
pub fn str_contains(s: &str, pat: &str) -> (r: bool)
    ensures
        r == contains(s@, pat@),
{
    contains_chars(&str_chars(s), &str_chars(pat))
}


/// `s` with the occurrences of `pat`, found left to right without overlap,
/// replaced by `with` (`str::replace` for a non-empty `pat`).
pub open spec fn replace_all(s: Seq<char>, pat: Seq<char>, with: Seq<char>) -> Seq<char>
    decreases s.len(),
{
    match find(s, pat) {
        Some(p) => if pat.len() > 0 && 0 <= p && p + pat.len() <= s.len() {
            s.take(p) + with + replace_all(s.skip(p + pat.len()), pat, with)
        } else {
            s
        },
        None => s,
    }
}

/// `str::replace` with a non-empty pattern.
pub fn replace_str(s: &str, pat: &str, with: &str) -> (r: String)
    requires
        pat@.len() > 0,
    ensures
        r@ == replace_all(s@, pat@, with@),
{
    let p = str_chars(pat);
    let w = str_chars(with);
    let mut rest = str_chars(s);
    let mut out: Vec<char> = Vec::new();
    loop
        invariant
            p@ == pat@,
            w@ == with@,
            p@.len() > 0,
            out@ + replace_all(rest@, p@, w@) == replace_all(s@, pat@, with@),
        decreases rest@.len(),
    {
        match find_from_chars(&rest, &p, 0) {
            None => {
                let ghost before = out@;
                let mut i: usize = 0;
                while i < rest.len()
                    invariant
                        i <= rest@.len(),
                        out@ == before + rest@.take(i as int),
                    decreases rest.len() - i,
                {
                    out.push(rest[i]);
                    i += 1;
                    assert(out@ =~= before + rest@.take(i as int));
                }
                assert(rest@.take(rest@.len() as int) =~= rest@);
                return chars_to_string(out.as_slice());
            },
            Some(q) => {
                let ghost old_rest = rest@;
                let head = slice_chars(&rest, 0, q);
                let ghost before = out@;
                let mut i: usize = 0;
                while i < head.len()
                    invariant
                        i <= head@.len(),
                        out@ == before + head@.take(i as int),
                    decreases head.len() - i,
                {
                    out.push(head[i]);
                    i += 1;
                    assert(out@ =~= before + head@.take(i as int));
                }
                assert(head@.take(head@.len() as int) =~= head@);
                let ghost mid = out@;
                let mut j: usize = 0;
                while j < w.len()
                    invariant
                        j <= w@.len(),
                        out@ == mid + w@.take(j as int),
                    decreases w.len() - j,
                {
                    out.push(w[j]);
                    j += 1;
                    assert(out@ =~= mid + w@.take(j as int));
                }
                assert(w@.take(w@.len() as int) =~= w@);
                rest = slice_chars(&rest, q + p.len(), rest.len());
                assert(head@ =~= old_rest.take(q as int));
                assert(rest@ =~= old_rest.skip(q + p@.len()));
                assert(out@ + replace_all(rest@, p@, w@) =~= before + replace_all(old_rest, p@, w@));
            },
        }
    }
}

/// Unicode lowercase mapping of a string, as `str::to_lowercase` computes it.
pub uninterp spec fn lowercase(s: Seq<char>) -> Seq<char>;

/// `str::to_lowercase`.
#[verifier::external_body]
pub(crate) fn to_lowercase(s: &str) -> (r: String)
    ensures
        r@ == lowercase(s@),
{
    s.to_lowercase()
}

/// Number of bytes of the UTF-8 encoding of a string (`str::len`).
pub open spec fn utf8_len(s: Seq<char>) -> nat {
    vstd::utf8::encode_utf8(s).len()
}

/// `String::from_utf8`: the decoded text when the bytes are valid UTF-8.
#[verifier::external_body]
pub(crate) fn utf8_decode(bytes: Vec<u8>) -> (r: Option<String>)
    ensures
        r is Some <==> vstd::utf8::valid_utf8(bytes@),
        r matches Some(s) ==> s@ == vstd::utf8::decode_utf8(bytes@),
{
    String::from_utf8(bytes).ok()
}



/// Number of bytes of the UTF-8 encoding of `c`.
pub open spec fn char_width(c: char) -> nat {
    let u = c as u32;
    if u < 0x80 {
        1
    } else if u < 0x800 {
        2
    } else if u < 0x10000 {
        3
    } else {
        4
    }
}

/// Number of bytes of the UTF-8 encoding of `s` (what `str::len` counts).
pub open spec fn byte_width(s: Seq<char>) -> nat
    decreases s.len(),
{
    if s.len() == 0 {
        0
    } else {
        byte_width(s.drop_last()) + char_width(s.last())
    }
}

/// The first character position at or after `k` whose byte offset is `b`;
/// `None` once the offsets pass `b`.
pub open spec fn boundary_from(s: Seq<char>, b: nat, k: int) -> Option<int>
    decreases s.len() + 1 - k,
{
    if k < 0 || k > s.len() {
        None
    } else if byte_width(s.take(k)) == b {
        Some(k)
    } else if byte_width(s.take(k)) > b {
        None
    } else {
        boundary_from(s, b, k + 1)
    }
}

/// The character position at byte offset `b`, when `b` is a character
/// boundary of `s` (`str::is_char_boundary`).
pub open spec fn char_boundary(s: Seq<char>, b: nat) -> Option<int> {
    boundary_from(s, b, 0)
}

/// `s.get(lo..hi)` with byte offsets: `None` exactly where the range is
/// not a valid cut (an offset off a character boundary or past the end, or `lo > hi`).
pub open spec fn byte_slice(s: Seq<char>, lo: nat, hi: nat) -> Option<Seq<char>> {
    match (char_boundary(s, lo), char_boundary(s, hi)) {
        (Some(i), Some(j)) => if i <= j {
            Some(s.subrange(i, j))
        } else {
            None
        },
        _ => None,
    }
}

fn width_of(c: char) -> (r: usize)
    ensures
        r == char_width(c),
{
    let u = c as u32;
    if u < 0x80 {
        1
    } else if u < 0x800 {
        2
    } else if u < 0x10000 {
        3
    } else {
        4
    }
}

/// The number of UTF-8 bytes of a character vector.
pub fn byte_width_chars(v: &Vec<char>) -> (r: u128)
    ensures
        r == byte_width(v@),
{
    let mut k: usize = 0;
    let mut acc: u128 = 0;
    while k < v.len()
        invariant
            k <= v.len(),
            acc == byte_width(v@.take(k as int)),
            acc <= 4 * k,
        decreases v.len() - k,
    {
        assert(v@.take(k + 1).drop_last() =~= v@.take(k as int));
        acc = acc + width_of(v[k]) as u128;
        k += 1;
    }
    assert(v@.take(v@.len() as int) =~= v@);
    acc
}

fn char_at_byte(v: &Vec<char>, b: usize) -> (r: Option<usize>)
    ensures
        match r {
            Some(k) => char_boundary(v@, b as nat) == Some(k as int) && k <= v@.len(),
            None => char_boundary(v@, b as nat) is None,
        },
{
    let mut k: usize = 0;
    let mut acc: u128 = 0;
    loop
        invariant
            k <= v.len(),
            acc == byte_width(v@.take(k as int)),
            acc <= 4 * k,
            char_boundary(v@, b as nat) == boundary_from(v@, b as nat, k as int),
        decreases v.len() - k,
    {
        if acc == b as u128 {
            return Some(k);
        }
        if acc > b as u128 {
            return None;
        }
        if k == v.len() {
            assert(boundary_from(v@, b as nat, k + 1) is None);
            return None;
        }
        assert(v@.take(k + 1).drop_last() =~= v@.take(k as int));
        acc = acc + width_of(v[k]) as u128;
        k += 1;
    }
}

/// `s.get(lo..hi)` with byte offsets, as an owned string.
pub fn byte_slice_str(s: &str, lo: usize, hi: usize) -> (r: Option<String>)
    ensures
        match r {
            Some(t) => byte_slice(s@, lo as nat, hi as nat) == Some(t@),
            None => byte_slice(s@, lo as nat, hi as nat) is None,
        },
{
    let v = str_chars(s);
    let i = match char_at_byte(&v, lo) {
        Some(i) => i,
        None => return None,
    };
    let j = match char_at_byte(&v, hi) {
        Some(j) => j,
        None => return None,
    };
    if i > j {
        return None;
    }
    let part = slice_chars(&v, i, j);
    Some(chars_to_string(part.as_slice()))
}

/// `&s[lo..hi]` (byte offsets) taken when `s` has at least `at_least` bytes.
pub open spec fn slice_if_long(s: Seq<char>, at_least: nat, lo: nat, hi: nat) -> Option<Seq<char>> {
    if byte_width(s) >= at_least {
        byte_slice(s, lo, hi)
    } else {
        None
    }
}

/// `s` has at least `at_least` bytes but cannot be cut at bytes `lo..hi`
/// (a bound inside a character or past the end).
pub open spec fn cut_fails(s: Seq<char>, at_least: nat, lo: nat, hi: nat) -> bool {
    byte_width(s) >= at_least && byte_slice(s, lo, hi) is None
}

/// `&s[lo..hi]` when `s` has at least `at_least` bytes, and whether it
/// cannot be cut there.
pub fn slice_if_long_str(s: &str, at_least: usize, lo: usize, hi: usize) -> (r: (
    Option<String>,
    bool,
))
    ensures
        match r.0 {
            Some(t) => slice_if_long(s@, at_least as nat, lo as nat, hi as nat) == Some(t@),
            None => slice_if_long(s@, at_least as nat, lo as nat, hi as nat) is None,
        },
        r.1 == cut_fails(s@, at_least as nat, lo as nat, hi as nat),
{
    let w = byte_width_chars(&str_chars(s));
    if w < at_least as u128 {
        return (None, false);
    }
    match byte_slice_str(s, lo, hi) {
        Some(t) => (Some(t), false),
        None => (None, true),
    }
}

/// Appends the characters of `s`.
pub fn push_str(v: &mut Vec<char>, s: &str)
    ensures
        final(v)@ == old(v)@ + s@,
{
    let cs = str_chars(s);
    let ghost start = v@;
    let mut i: usize = 0;
    while i < cs.len()
        invariant
            i <= cs.len(),
            v@ == start + cs@.take(i as int),
        decreases cs.len() - i,
    {
        v.push(cs[i]);
        i += 1;
        assert(v@ =~= start + cs@.take(i as int));
    }
    assert(cs@.take(cs@.len() as int) =~= cs@);
}


pub open spec fn strings_view(v: Seq<String>) -> Seq<Seq<char>> {
    v.map_values(|s: String| s@)
}

/// Appends `parts` joined by `sep` (`[..].join(sep)`).
pub fn push_joined(v: &mut Vec<char>, parts: &Vec<String>, sep: &str)
    ensures
        final(v)@ == old(v)@ + join(strings_view(parts@), sep@),
{
    let ghost start = v@;
    let ghost pv = strings_view(parts@);
    let mut i: usize = 0;
    while i < parts.len()
        invariant
            i <= parts@.len(),
            pv == strings_view(parts@),
            v@ == start + join(pv.take(i as int), sep@),
        decreases parts.len() - i,
    {
        proof {
            lemma_join_push(pv.take(i as int), pv[i as int], sep@);
            assert(pv.take(i + 1) =~= pv.take(i as int).push(pv[i as int]));
        }
        if i > 0 {
            push_str(v, sep);
        }
        push_str(v, parts[i].as_str());
        proof {
            if i == 0 {
                assert(pv.take(0) =~= Seq::<Seq<char>>::empty());
            }
            assert(v@ =~= start + join(pv.take(i + 1), sep@));
        }
        i += 1;
    }
    assert(pv.take(parts@.len() as int) =~= pv);
}

/// Decimal digit character of `d` (below 10).
pub open spec fn digit_char(d: nat) -> char {
    (d + 48) as char
}

/// Decimal representation of a natural number (no leading zeros).
pub open spec fn decimal(n: nat) -> Seq<char>
    decreases n,
{
    if n < 10 {
        seq![digit_char(n)]
    } else {
        decimal(n / 10).push(digit_char(n % 10))
    }
}

/// Decimal representation of an integer (`-` sign when negative), as `Display` writes it.
pub open spec fn signed_decimal(n: int) -> Seq<char> {
    if n < 0 {
        seq!['-'] + decimal((-n) as nat)
    } else {
        decimal(n as nat)
    }
}

fn digit(d: u64) -> (c: char)
    requires
        d < 10,
    ensures
        c == digit_char(d as nat),
{
    match d {
        0 => '0',
        1 => '1',
        2 => '2',
        3 => '3',
        4 => '4',
        5 => '5',
        6 => '6',
        7 => '7',
        8 => '8',
        _ => '9',
    }
}

/// Appends the decimal representation of `n`.
pub fn push_decimal(v: &mut Vec<char>, n: u64)
    ensures
        final(v)@ == old(v)@ + decimal(n as nat),
    decreases n,
{
    let ghost start = v@;
    if n >= 10 {
        push_decimal(v, n / 10);
    }
    v.push(digit(n % 10));
    proof {
        if n >= 10 {
            assert(v@ =~= start + decimal((n / 10) as nat).push(digit_char((n % 10) as nat)));
        } else {
            assert(v@ =~= start + seq![digit_char(n as nat)]);
        }
    }
}

/// Appends the decimal representation of a signed `n`.
pub fn push_signed_decimal(v: &mut Vec<char>, n: i64)
    ensures
        final(v)@ == old(v)@ + signed_decimal(n as int),
{
    if n < 0 {
        let ghost start = v@;
        v.push('-');
        let m: u64 = ((-(n + 1)) as u64) + 1;
        push_decimal(v, m);
        assert(v@ =~= start + (seq!['-'] + decimal(m as nat)));
    } else {
        push_decimal(v, n as u64);
    }
}

} // verus!
