//! Server configuration, read from environment variable values.

use vstd::prelude::*;

use crate::parse::{is_socket_address, socket_address_text, parse_u16, pieces, ranges_within, split_on, split_ranges, u16_text, all_digits, decimal_value, unsigned_digits};
use crate::text::{chars_of, is_space, is_space_exec, push_char, text_of};

verus! {

broadcast use vstd::string::group_string_axioms;

/// Default DNS port (UDP and TCP).
pub const DEFAULT_DNS_PORT: u16 = 53;

/// Default HTTP API port.
pub const DEFAULT_API_PORT: u16 = 15353;

/// Default maximum time, in seconds, that a fallback response is cached.
pub const DEFAULT_CACHE_TTL: u64 = 300;

/// The server's configuration.
pub struct Config {
    pub dns_port: u16,
    pub api_port: u16,
    pub log_level: String,
    /// Upstream DNS servers to forward queries to when no local record
    /// matches, as socket address texts ("ip:port", "[ipv6]:port"), each
    /// one that `std::net::SocketAddr` parses.
    /// Empty: fallback disabled (unknown names get NXDOMAIN).
    pub fallback_dns: Vec<String>,
    /// Maximum time, in seconds, that a fallback response is cached.
    pub cache_ttl: u64,
}

impl Default for Config {
    fn default() -> (c: Self)
        ensures
            c.dns_port == DEFAULT_DNS_PORT,
            c.api_port == DEFAULT_API_PORT,
            c.log_level@ == "info"@,
            c.fallback_dns@.len() == 0,
            c.cache_ttl == DEFAULT_CACHE_TTL,
    {
        Config {
            dns_port: DEFAULT_DNS_PORT,
            api_port: DEFAULT_API_PORT,
            log_level: String::from_str("info"),
            fallback_dns: Vec::new(),
            cache_ttl: DEFAULT_CACHE_TTL,
        }
    }
}

/// `s` without leading and trailing whitespace (`str::trim`).
pub open spec fn trimmed(s: Seq<char>) -> Seq<char>
    decreases s.len(),
{
    if s.len() > 0 && is_space(s[0]) {
        trimmed(s.drop_first())
    } else if s.len() > 0 && is_space(s.last()) {
        trimmed(s.drop_last())
    } else {
        s
    }
}

/// Number of occurrences of `c` in `s`.
pub open spec fn count_of(s: Seq<char>, c: char) -> nat
    decreases s.len(),
{
    if s.len() == 0 {
        0
    } else {
        count_of(s.drop_last(), c) + if s.last() == c {
            1nat
        } else {
            0nat
        }
    }
}

/// The socket address text for one configured upstream server: taken as
/// it is when bracketed or when it has one colon (IPv4 or host with port);
/// a bare IPv6 address (two colons or more) is bracketed and given port
/// 53; a bare IPv4 address or host name is given port 53.
pub open spec fn server_address(s: Seq<char>) -> Seq<char> {
    if s.len() > 0 && s[0] == '[' {
        s
    } else if count_of(s, ':') > 1 {
        seq!['['] + s + "]:53"@
    } else if count_of(s, ':') == 1 {
        s
    } else {
        s + ":53"@
    }
}

/// The upstream server texts of a comma-separated list: each item trimmed,
/// empty items dropped, the rest as `server_address` gives them, where that
/// reads as a socket address (the others are dropped).
pub open spec fn server_addresses(items: Seq<Seq<char>>) -> Seq<Seq<char>>
    decreases items.len(),
{
    if items.len() == 0 {
        Seq::empty()
    } else {
        let rest = server_addresses(items.drop_last());
        let t = trimmed(items.last());
        if t.len() == 0 || !socket_address_text(server_address(t)) {
            rest
        } else {
            rest.push(server_address(t))
        }
    }
}

/// The range of `v[lo..hi]` without leading and trailing whitespace.
pub(crate) fn trim_range(v: &Vec<char>, lo: usize, hi: usize) -> (r: (usize, usize))
    requires
        lo <= hi <= v.len(),
    ensures
        lo <= r.0 <= r.1 <= hi,
        v@.subrange(r.0 as int, r.1 as int) == trimmed(v@.subrange(lo as int, hi as int)),
{
    let mut a = lo;
    while a < hi && is_space_exec(v[a])
        invariant
            lo <= a <= hi <= v.len(),
            trimmed(v@.subrange(lo as int, hi as int)) == trimmed(v@.subrange(a as int, hi as int)),
        decreases hi - a,
    {
        assert(v@.subrange(a as int, hi as int).drop_first() =~= v@.subrange(a + 1, hi as int));
        a = a + 1;
    }
    let mut b = hi;
    while b > a && is_space_exec(v[b - 1])
        invariant
            lo <= a <= b <= hi <= v.len(),
            a == hi || !is_space(v@[a as int]),
            trimmed(v@.subrange(lo as int, hi as int)) == trimmed(v@.subrange(a as int, b as int)),
        decreases b - a,
    {
        let ghost s = v@.subrange(a as int, b as int);
        assert(s[0] == v@[a as int]);
        assert(s.last() == v@[b - 1]);
        assert(s.drop_last() =~= v@.subrange(a as int, b - 1));
        b = b - 1;
    }
    proof {
        let s = v@.subrange(a as int, b as int);
        if s.len() > 0 {
            assert(s[0] == v@[a as int]);
            assert(s.last() == v@[b - 1]);
        }
    }
    (a, b)
}

/// The number of `c` in `v[lo..hi]`, stopping at 2.
fn count_upto2(v: &Vec<char>, lo: usize, hi: usize, c: char) -> (n: usize)
    requires
        lo <= hi <= v.len(),
    ensures
        n == if count_of(v@.subrange(lo as int, hi as int), c) > 2 {
            2
        } else {
            count_of(v@.subrange(lo as int, hi as int), c)
        },
{
    let mut n: usize = 0;
    let mut i = lo;
    while i < hi
        invariant
            lo <= i <= hi <= v.len(),
            n == if count_of(v@.subrange(lo as int, i as int), c) > 2 {
                2
            } else {
                count_of(v@.subrange(lo as int, i as int), c)
            },
        decreases hi - i,
    {
        assert(v@.subrange(lo as int, i + 1).drop_last() =~= v@.subrange(lo as int, i as int));
        if v[i] == c && n < 2 {
            n = n + 1;
        }
        i = i + 1;
    }
    n
}

/// The socket address text for `v[lo..hi]`; see `server_address`.
fn server_address_text(v: &Vec<char>, lo: usize, hi: usize) -> (r: String)
    requires
        lo <= hi <= v.len(),
    ensures
        r@ == server_address(v@.subrange(lo as int, hi as int)),
{
    proof {
        reveal_strlit("]:53");
        reveal_strlit(":53");
    }
    let colons = count_upto2(v, lo, hi, ':');
    if hi > lo && v[lo] == '[' {
        assert(v@.subrange(lo as int, hi as int)[0] == v@[lo as int]);
        text_of(v, lo, hi)
    } else if colons > 1 {
        let mut out = String::new();
        push_char(&mut out, '[');
        let body = text_of(v, lo, hi);
        let out = out.concat(body.as_str());
        let out = out.concat("]:53");
        assert(out@ =~= seq!['['] + v@.subrange(lo as int, hi as int) + "]:53"@);
        proof {
            if hi > lo {
                assert(v@.subrange(lo as int, hi as int)[0] == v@[lo as int]);
            }
        }
        out
    } else if colons == 1 {
        proof {
            if hi > lo {
                assert(v@.subrange(lo as int, hi as int)[0] == v@[lo as int]);
            }
        }
        text_of(v, lo, hi)
    } else {
        let body = text_of(v, lo, hi);
        proof {
            if hi > lo {
                assert(v@.subrange(lo as int, hi as int)[0] == v@[lo as int]);
            }
        }
        body.concat(":53")
    }
}

/// The upstream server texts of a comma-separated list; see `server_addresses`.
pub fn fallback_servers(raw: &str) -> (r: Vec<String>)
    ensures
        r@.map_values(|s: String| s@) == server_addresses(split_on(raw@, ',')),
{
    let v = chars_of(raw);
    assert(v@.subrange(0, v.len() as int) =~= raw@);
    let rs = split_ranges(&v, 0, v.len(), ',');
    let ghost items = pieces(v@, rs@);
    let mut out: Vec<String> = Vec::new();
    let mut i: usize = 0;
    while i < rs.len()
        invariant
            i <= rs.len(),
            ranges_within(rs@, 0, v.len()),
            items == pieces(v@, rs@),
            out@.map_values(|s: String| s@) == server_addresses(items.take(i as int)),
        decreases rs.len() - i,
    {
        let (a, b) = rs[i];
        assert(0 <= rs@[i as int].0 <= rs@[i as int].1 <= v.len());
        assert(items.take(i + 1).drop_last() =~= items.take(i as int));
        assert(items.take(i + 1).last() == v@.subrange(a as int, b as int));
        let (ta, tb) = trim_range(&v, a, b);
        if ta < tb {
            let s = server_address_text(&v, ta, tb);
            let cs = chars_of(s.as_str());
            if is_socket_address(&cs) {
                let ghost before = out@.map_values(|s: String| s@);
                let ghost sv = s@;
                out.push(s);
                assert(out@.map_values(|s: String| s@) =~= before.push(sv));
            }
        }
        i = i + 1;
    }
    assert(items.take(rs.len() as int) =~= items);
    out
}

/// What `u64::from_str` gives.
pub open spec fn u64_text(s: Seq<char>) -> Option<u64> {
    let d = unsigned_digits(s);
    if d.len() > 0 && all_digits(d) && decimal_value(d) <= u64::MAX {
        Some(decimal_value(d) as u64)
    } else {
        None
    }
}

/// Parses `s` as `u64::from_str` does.
pub fn parse_u64(s: &str) -> (r: Option<u64>)
    ensures
        r == u64_text(s@),
{
    let v = chars_of(s);
    let hi = v.len();
    let ghost full = v@;
    let start: usize = if hi > 0 && v[0] == '+' { 1 } else { 0 };
    let ghost d = v@.subrange(start as int, hi as int);
    assert(d =~= unsigned_digits(s@));
    if start == hi {
        return None;
    }
    let cap: u128 = 18446744073709551616;
    let mut val: u128 = 0;
    let mut i = start;
    while i < hi
        invariant
            start <= i <= hi == v.len(),
            cap == u64::MAX as int + 1,
            d == v@.subrange(start as int, hi as int),
            d == unsigned_digits(s@),
            all_digits(d.take(i - start)),
            val == if decimal_value(d.take(i - start)) <= cap {
                decimal_value(d.take(i - start))
            } else {
                cap as int
            },
        decreases hi - i,
    {
        let c = v[i];
        assert(d[i - start] == c);
        if !('0' <= c && c <= '9') {
            assert(!all_digits(d));
            return None;
        }
        assert(d.take(i - start + 1).drop_last() == d.take(i - start));
        assert(all_digits(d.take(i - start + 1)));
        let digit = ((c as u32) - ('0' as u32)) as u128;
        if val >= cap {
            val = cap;
        } else {
            val = val * 10 + digit;
            if val > cap {
                val = cap;
            }
        }
        i = i + 1;
    }
    assert(d.take(hi - start) == d);
    if val >= cap {
        None
    } else {
        Some(val as u64)
    }
}

/// A port setting: the parsed value, or the default where it is absent or
/// does not parse.
pub open spec fn port_setting(value: Option<Seq<char>>, default: u16) -> u16 {
    match value {
        Some(v) => match u16_text(v) {
            Some(p) => p,
            None => default,
        },
        None => default,
    }
}

/// The view of an optional text.
pub open spec fn opt_text(value: Option<&str>) -> Option<Seq<char>> {
    match value {
        Some(v) => Some(v@),
        None => None,
    }
}

fn port_or(value: Option<&str>, default: u16) -> (p: u16)
    ensures
        p == port_setting(opt_text(value), default),
{
    match value {
        Some(v) => {
            let cs = chars_of(v);
            assert(cs@.subrange(0, cs.len() as int) =~= v@);
            match parse_u16(&cs, 0, cs.len()) {
                Some(p) => p,
                None => default,
            }
        },
        None => default,
    }
}

impl Config {
    /// The configuration given by the values of the environment variables
    /// `DNS_PORT`, `API_PORT`, `LOG_LEVEL`, `FALLBACK_DNS` and `CACHE_TTL`
    /// (`None` where a variable is unset). An unset or unparsable value
    /// leaves the default.
    pub fn from_values(
        dns_port: Option<&str>,
        api_port: Option<&str>,
        log_level: Option<&str>,
        fallback_dns: Option<&str>,
        cache_ttl: Option<&str>,
    ) -> (c: Config)
        ensures
            c.dns_port == port_setting(opt_text(dns_port), DEFAULT_DNS_PORT),
            c.api_port == port_setting(opt_text(api_port), DEFAULT_API_PORT),
            c.log_level@ == match log_level {
                Some(l) => l@,
                None => "info"@,
            },
            c.fallback_dns@.map_values(|s: String| s@) == match fallback_dns {
                Some(f) => server_addresses(split_on(f@, ',')),
                None => Seq::empty(),
            },
            c.cache_ttl == match cache_ttl {
                Some(t) => match u64_text(t@) {
                    Some(n) => n,
                    None => DEFAULT_CACHE_TTL,
                },
                None => DEFAULT_CACHE_TTL,
            },
    {
        let mut c = Config::default();
        c.dns_port = port_or(dns_port, DEFAULT_DNS_PORT);
        c.api_port = port_or(api_port, DEFAULT_API_PORT);
        match log_level {
            Some(l) => {
                c.log_level = String::from_str(l);
            },
            None => {},
        }
        match fallback_dns {
            Some(f) => {
                c.fallback_dns = fallback_servers(f);
            },
            None => {
                assert(c.fallback_dns@.map_values(|s: String| s@) =~= Seq::<Seq<char>>::empty());
            },
        }
        match cache_ttl {
            Some(t) => match parse_u64(t) {
                Some(n) => {
                    c.cache_ttl = n;
                },
                None => {},
            },
            None => {},
        }
        c
    }

    /// Whether queries that no local record answers are forwarded upstream.
    pub fn fallback_enabled(&self) -> (b: bool)
        ensures
            b == (self.fallback_dns@.len() > 0),
    {
        self.fallback_dns.len() > 0
    }
}

} // verus!
