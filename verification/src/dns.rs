//! DNS decisions: resolution timeout and IPv6 settings, and the order in
//! which resolved addresses are tried (IPv4 first, so that a broken IPv6
//! route on a mobile network does not stall every connection). The lookups
//! themselves (system resolver with a hard timeout, then public DNS servers)
//! are run by the application.
use vstd::prelude::*;

use crate::text::{chars_to_string, push_str, str_chars, str_eq};

verus! {

/// Environment variable with the resolution timeout (milliseconds).
pub const ENV_DNS_TIMEOUT_MS: &'static str = "EDUCE_DNS_TIMEOUT_MS";

/// Environment variable that drops IPv6 addresses ("1", "true", "yes", "on").
pub const ENV_NO_IPV6: &'static str = "EDUCE_NO_IPV6";

/// Default resolution timeout (milliseconds).
pub const DEFAULT_DNS_TIMEOUT_MS: u64 = 3000;

/// Smallest accepted resolution timeout (milliseconds).
pub const MIN_DNS_TIMEOUT_MS: u64 = 500;

/// Largest accepted resolution timeout (milliseconds).
pub const MAX_DNS_TIMEOUT_MS: u64 = 8000;

/// Value of an ASCII digit string (at most `u64::MAX`), an optional `+`
/// first (what `str::parse::<u64>` accepts).
pub open spec fn digits_value(s: Seq<char>) -> int
    decreases s.len(),
{
    if s.len() == 0 {
        0
    } else {
        digits_value(s.drop_last()) * 10 + ((s.last() as u32) as int - 48)
    }
}

pub open spec fn all_digits(s: Seq<char>) -> bool {
    forall|i: int| 0 <= i < s.len() ==> '0' <= #[trigger] s[i] <= '9'
}

/// `str::parse::<u64>`: an optional `+`, then one or more ASCII digits
/// whose value fits in a `u64`.
pub open spec fn parse_u64_spec(s: Seq<char>) -> Option<u64> {
    let d = if s.len() > 0 && s[0] == '+' {
        s.drop_first()
    } else {
        s
    };
    if d.len() > 0 && all_digits(d) && digits_value(d) <= u64::MAX {
        Some(digits_value(d) as u64)
    } else {
        None
    }
}

proof fn lemma_digits_value_nonneg(s: Seq<char>)
    requires
        all_digits(s),
    ensures
        digits_value(s) >= 0,
    decreases s.len(),
{
    if s.len() > 0 {
        assert(all_digits(s.drop_last())) by {
            assert forall|i: int| 0 <= i < s.drop_last().len() implies '0' <= #[trigger] s.drop_last()[i] <= '9' by {
                assert(s.drop_last()[i] == s[i]);
            }
        }
        lemma_digits_value_nonneg(s.drop_last());
    }
}

fn digits_only(v: &Vec<char>, start: usize) -> (r: bool)
    requires
        start <= v@.len(),
    ensures
        r == all_digits(v@.skip(start as int)),
{
    let mut i = start;
    while i < v.len()
        invariant
            start <= i <= v@.len(),
            forall|k: int| start <= k < i ==> '0' <= #[trigger] v@[k] <= '9',
        decreases v.len() - i,
    {
        if !('0' <= v[i] && v[i] <= '9') {
            assert(v@.skip(start as int)[i - start] == v@[i as int]);
            return false;
        }
        i += 1;
    }
    assert forall|k: int| 0 <= k < v@.skip(start as int).len() implies '0' <= #[trigger] v@.skip(
        start as int,
    )[k] <= '9' by {
        assert(v@.skip(start as int)[k] == v@[start + k]);
    }
    true
}

proof fn lemma_all_digits_take(d: Seq<char>, k: int)
    requires
        all_digits(d),
        0 <= k <= d.len(),
    ensures
        all_digits(d.take(k)),
{
    assert forall|j: int| 0 <= j < d.take(k).len() implies '0' <= #[trigger] d.take(k)[j] <= '9' by {
        assert(d.take(k)[j] == d[j]);
    }
}

/// Executable [`parse_u64_spec`].
pub fn parse_u64(s: &str) -> (r: Option<u64>)
    ensures
        r == parse_u64_spec(s@),
{
    let v = str_chars(s);
    let start: usize = if v.len() > 0 && v[0] == '+' {
        1
    } else {
        0
    };
    let ghost d = if v@.len() > 0 && v@[0] == '+' {
        v@.drop_first()
    } else {
        v@
    };
    assert(d =~= v@.skip(start as int));
    if start >= v.len() {
        return None;
    }
    if !digits_only(&v, start) {
        return None;
    }
    let mut acc: u128 = 0;
    let mut i: usize = start;
    while i < v.len()
        invariant
            start <= i <= v@.len(),
            v@ == s@,
            d == v@.skip(start as int),
            d == (if v@.len() > 0 && v@[0] == '+' {
                v@.drop_first()
            } else {
                v@
            }),
            all_digits(d),
            acc == digits_value(d.take(i - start)),
            acc <= u64::MAX,
        decreases v.len() - i,
    {
        let ghost t = d.take(i - start);
        let ghost t1 = d.take(i - start + 1);
        assert(t1.drop_last() =~= t);
        assert(t1.last() == v@[i as int]);
        assert('0' <= v@[i as int] <= '9') by {
            assert(d[i - start] == v@[i as int]);
        }
        let dig = (v[i] as u32 - 48) as u128;
        acc = acc * 10 + dig;
        assert(acc == digits_value(t1));
        if acc > u64::MAX as u128 {
            proof {
                lemma_all_digits_take(d, i - start + 1);
                lemma_prefix_value_le(d, i - start + 1);
            }
            return None;
        }
        i += 1;
    }
    assert(d.take(v@.len() - start) =~= d);
    Some(acc as u64)
}

/// The value of a digit string is at least that of any of its prefixes.
proof fn lemma_prefix_value_le(d: Seq<char>, k: int)
    requires
        0 <= k <= d.len(),
        all_digits(d.take(k)),
    ensures
        all_digits(d) ==> digits_value(d.take(k)) <= digits_value(d),
    decreases d.len() - k,
{
    if k < d.len() && all_digits(d) {
        assert(all_digits(d.take(k + 1))) by {
            assert forall|j: int| 0 <= j < d.take(k + 1).len() implies '0' <= #[trigger] d.take(k + 1)[j] <= '9' by {
                assert(d.take(k + 1)[j] == d[j]);
            }
        }
        lemma_prefix_value_le(d, k + 1);
        assert(d.take(k + 1).drop_last() =~= d.take(k));
        lemma_digits_value_nonneg(d.take(k));
        assert(digits_value(d.take(k)) <= digits_value(d.take(k + 1))) by (nonlinear_arith)
            requires
                digits_value(d.take(k + 1)) == digits_value(d.take(k)) * 10 + ((d.take(k + 1).last() as u32) as int - 48),
                digits_value(d.take(k)) >= 0,
                '0' <= d.take(k + 1).last() <= '9',
        ;
    } else if k == d.len() {
        assert(d.take(k) =~= d);
    }
}

/// Whether an environment value switches IPv6 off.
pub open spec fn is_on(v: Seq<char>) -> bool {
    v == "1"@ || v == "true"@ || v == "yes"@ || v == "on"@
}

/// Resolver settings: IPv4 first, a hard resolution timeout, optional
/// IPv6 drop.
#[derive(Debug, Clone, Copy)]
pub struct PreferV4Resolver {
    /// Resolution budget (milliseconds).
    pub resolve_timeout_ms: u64,
    /// Drop IPv6 addresses.
    pub drop_ipv6: bool,
}

impl PreferV4Resolver {
    /// Settings from the raw environment values: the timeout parsed
    /// (default 3000 ms when absent or not a number) and kept within 500 to
    /// 8000 ms; IPv6 dropped for "1", "true", "yes" or "on".
    pub fn from_settings(timeout: Option<&str>, no_ipv6: Option<&str>) -> (r: Self)
        ensures
            r.resolve_timeout_ms == ({
                let t: u64 = match timeout {
                    Some(s) => match parse_u64_spec(s@) {
                        Some(n) => n,
                        None => DEFAULT_DNS_TIMEOUT_MS,
                    },
                    None => DEFAULT_DNS_TIMEOUT_MS,
                };
                if t < MIN_DNS_TIMEOUT_MS {
                    MIN_DNS_TIMEOUT_MS
                } else if t > MAX_DNS_TIMEOUT_MS {
                    MAX_DNS_TIMEOUT_MS
                } else {
                    t
                }
            }),
            r.drop_ipv6 == match no_ipv6 {
                Some(v) => is_on(v@),
                None => false,
            },
    {
        let t: u64 = match timeout {
            Some(s) => match parse_u64(s) {
                Some(n) => n,
                None => DEFAULT_DNS_TIMEOUT_MS,
            },
            None => DEFAULT_DNS_TIMEOUT_MS,
        };
        let t = if t < MIN_DNS_TIMEOUT_MS {
            MIN_DNS_TIMEOUT_MS
        } else if t > MAX_DNS_TIMEOUT_MS {
            MAX_DNS_TIMEOUT_MS
        } else {
            t
        };
        let drop_ipv6 = match no_ipv6 {
            Some(v) => str_eq(v, "1") || str_eq(v, "true") || str_eq(v, "yes") || str_eq(v, "on"),
            None => false,
        };
        PreferV4Resolver { resolve_timeout_ms: t, drop_ipv6 }
    }
}

/// Positions (ascending) of the addresses whose family flag is `want`.
pub open spec fn positions(is_v4: Seq<bool>, want: bool) -> Seq<int>
    decreases is_v4.len(),
{
    if is_v4.len() == 0 {
        seq![]
    } else {
        let p = positions(is_v4.drop_last(), want);
        if is_v4.last() == want {
            p.push(is_v4.len() - 1)
        } else {
            p
        }
    }
}

/// The order resolved addresses are tried in: the IPv4 ones, then the
/// IPv6 ones unless they are dropped, each group in resolver order.
pub open spec fn address_order(is_v4: Seq<bool>, drop_ipv6: bool) -> Seq<int> {
    positions(is_v4, true) + if drop_ipv6 {
        Seq::<int>::empty()
    } else {
        positions(is_v4, false)
    }
}

fn positions_of(is_v4: &Vec<bool>, want: bool) -> (r: Vec<usize>)
    ensures
        r@.map_values(|i: usize| i as int) == positions(is_v4@, want),
{
    let mut out: Vec<usize> = Vec::new();
    let mut i: usize = 0;
    while i < is_v4.len()
        invariant
            i <= is_v4@.len(),
            out@.map_values(|k: usize| k as int) == positions(is_v4@.take(i as int), want),
        decreases is_v4.len() - i,
    {
        assert(is_v4@.take(i + 1).drop_last() =~= is_v4@.take(i as int));
        if is_v4[i] == want {
            out.push(i);
        }
        assert(out@.map_values(|k: usize| k as int) =~= positions(is_v4@.take(i + 1), want));
        i += 1;
    }
    assert(is_v4@.take(is_v4@.len() as int) =~= is_v4@);
    out
}

/// The order to try resolved addresses in (positions into the resolver's
/// list, `is_v4` telling each address's family); the error when no
/// address is left.
pub fn order_addresses(is_v4: &Vec<bool>, drop_ipv6: bool, host: &str) -> (r: Result<
    Vec<usize>,
    String,
>)
    ensures
        address_order(is_v4@, drop_ipv6).len() > 0 ==> (r matches Ok(v) && v@.map_values(
            |i: usize| i as int,
        ) == address_order(is_v4@, drop_ipv6)),
        address_order(is_v4@, drop_ipv6).len() == 0 ==> (r matches Err(m) && m@ == "DNS 解析无可用地址("@
            + host@ + ")"@ + if drop_ipv6 {
            "（已按 EDUCE_NO_IPV6 跳过 IPv6）"@
        } else {
            ""@
        }),
{
    let mut v4 = positions_of(is_v4, true);
    let v6 = if drop_ipv6 {
        Vec::new()
    } else {
        positions_of(is_v4, false)
    };
    let ghost a = v4@;
    let mut j: usize = 0;
    while j < v6.len()
        invariant
            j <= v6@.len(),
            v4@ == a + v6@.take(j as int),
        decreases v6.len() - j,
    {
        v4.push(v6[j]);
        j += 1;
        assert(v4@ =~= a + v6@.take(j as int));
    }
    assert(v6@.take(v6@.len() as int) =~= v6@);
    assert(v4@.map_values(|i: usize| i as int) =~= address_order(is_v4@, drop_ipv6));
    if v4.len() == 0 {
        let mut m = str_chars("DNS 解析无可用地址(");
        push_str(&mut m, host);
        push_str(&mut m, ")");
        if drop_ipv6 {
            push_str(&mut m, "（已按 EDUCE_NO_IPV6 跳过 IPv6）");
        } else {
            push_str(&mut m, "");
        }
        return Err(chars_to_string(m.as_slice()));
    }
    Ok(v4)
}

} // verus!

verus! {

/// What a resolution does once the system resolver has answered.
#[derive(Debug, Clone)]
pub enum SystemStep {
    /// Use these addresses (positions in the system's answer, in order).
    Use(Vec<usize>),
    /// Ask the public resolvers instead.
    Fallback,
}

/// The decision after the system resolver: its usable addresses in
/// [`address_order`] when it answered with any, else (it failed, timed out,
/// or gave nothing usable) a fallback to the public resolvers.
pub fn after_system(answer: Option<&Vec<bool>>, drop_ipv6: bool) -> (r: SystemStep)
    ensures
        match answer {
            Some(is_v4) => if address_order(is_v4@, drop_ipv6).len() > 0 {
                r matches SystemStep::Use(v) && v@.map_values(|i: usize| i as int) == address_order(
                    is_v4@,
                    drop_ipv6,
                )
            } else {
                r is Fallback
            },
            None => r is Fallback,
        },
{
    match answer {
        None => SystemStep::Fallback,
        Some(is_v4) => match order_addresses(is_v4, drop_ipv6, "") {
            Ok(v) => SystemStep::Use(v),
            Err(_) => SystemStep::Fallback,
        },
    }
}

/// The usable addresses of the public resolvers' answer in
/// [`address_order`]; an error when there are none.
pub fn public_addresses(is_v4: &Vec<bool>, drop_ipv6: bool) -> (r: Result<Vec<usize>, String>)
    ensures
        address_order(is_v4@, drop_ipv6).len() > 0 ==> (r matches Ok(v) && v@.map_values(
            |i: usize| i as int,
        ) == address_order(is_v4@, drop_ipv6)),
        address_order(is_v4@, drop_ipv6).len() == 0 ==> (r matches Err(m) && m@ == "公共 DNS 无可用地址"@),
{
    match order_addresses(is_v4, drop_ipv6, "") {
        Ok(v) => Ok(v),
        Err(_) => Err(chars_to_string(str_chars("公共 DNS 无可用地址").as_slice())),
    }
}

} // verus!
