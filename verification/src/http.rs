//! The command-line client's HTTP exchange with the server's API: the
//! server address, request texts, and the reading of responses (status
//! line, body, chunked transfer encoding).

use vstd::prelude::*;
use vstd::utf8::{decode_utf8, is_continuation_byte, valid_utf8};

use crate::config::{opt_text, port_setting, trim_range, trimmed};
use crate::parse::{all_hex_digits, find_char, first_index, hex_value, parse_u16, u16_text, unsigned_digits, word_ranges, words};
use crate::text::{chars_of, push_char};

verus! {

broadcast use vstd::string::group_string_axioms;

/// Default host of the server that the client talks to.
pub const DEFAULT_HOST: &'static str = "127.0.0.1";

/// Default API port of the server that the client talks to.
pub const DEFAULT_PORT: u16 = 15353;

/// The decimal text of `n`.
pub open spec fn decimal_text(n: nat) -> Seq<char>
    decreases n,
{
    if n < 10 {
        seq![(n + 48) as char]
    } else {
        decimal_text(n / 10).push(((n % 10) + 48) as char)
    }
}

/// Appends the decimal text of `n` to `out`.
pub fn push_decimal(out: &mut String, n: u64)
    ensures
        final(out)@ == old(out)@ + decimal_text(n as nat),
    decreases n,
{
    if n >= 10 {
        push_decimal(out, n / 10);
    }
    let d: u8 = (n % 10) as u8;
    push_char(out, (d + 48) as char);
}

/// Which server the client talks to.
pub struct Connection {
    pub host: String,
    pub port: u16,
}

impl Connection {
    /// The server given by the values of `BIFROST_HOST` and `BIFROST_PORT`
    /// (`None` where unset); an unset or unparsable value leaves the default.
    pub fn from_values(host: Option<&str>, port: Option<&str>) -> (c: Connection)
        ensures
            c.host@ == match host {
                Some(h) => h@,
                None => DEFAULT_HOST@,
            },
            c.port == port_setting(opt_text(port), DEFAULT_PORT),
    {
        let h = match host {
            Some(h) => String::from_str(h),
            None => String::from_str(DEFAULT_HOST),
        };
        let p = match port {
            Some(v) => {
                let cs = chars_of(v);
                assert(cs@.subrange(0, cs.len() as int) =~= v@);
                match parse_u16(&cs, 0, cs.len()) {
                    Some(p) => p,
                    None => DEFAULT_PORT,
                }
            },
            None => DEFAULT_PORT,
        };
        Connection { host: h, port: p }
    }

    /// `host:port`.
    pub fn base_url(&self) -> (s: String)
        ensures
            s@ == self.host@ + seq![':'] + decimal_text(self.port as nat),
    {
        let mut s = self.host.clone();
        push_char(&mut s, ':');
        push_decimal(&mut s, self.port as u64);
        s
    }
}

/// The text of an HTTP/1.1 request: request line, `Host`, and, with a
/// body, `Content-Type: application/json` and `Content-Length` (its byte
/// length), then `Connection: close`, a blank line and the body.
pub open spec fn request_text(method: Seq<char>, path: Seq<char>, body: Option<Seq<char>>) -> Seq<char> {
    match body {
        Some(b) => method + seq![' '] + path + " HTTP/1.1\r\nHost: localhost\r\nContent-Type: application/json\r\nContent-Length: "@
            + decimal_text((vstd::utf8::encode_utf8(b).len() as usize) as nat) + "\r\nConnection: close\r\n\r\n"@ + b,
        None => method + seq![' '] + path + " HTTP/1.1\r\nHost: localhost\r\nConnection: close\r\n\r\n"@,
    }
}

/// The text of an HTTP/1.1 request; see `request_text`.
pub fn http_request_text(method: &str, path: &str, body: Option<&str>) -> (s: String)
    ensures
        s@ == request_text(method@, path@, match body {
            Some(b) => Some(b@),
            None => None,
        }),
{
    let mut s = String::from_str(method);
    push_char(&mut s, ' ');
    let s = s.concat(path);
    match body {
        Some(b) => {
            let mut s = s.concat(" HTTP/1.1\r\nHost: localhost\r\nContent-Type: application/json\r\nContent-Length: ");
            let n = b.len();
            push_decimal(&mut s, n as u64);
            let s = s.concat("\r\nConnection: close\r\n\r\n");
            let s = s.concat(b);
            assert(s@ =~= request_text(method@, path@, Some(b@)));
            s
        },
        None => s.concat(" HTTP/1.1\r\nHost: localhost\r\nConnection: close\r\n\r\n"),
    }
}

// ---------------------------------------------------------------- chunked bodies

/// Index of the first CR LF in `b`.
pub open spec fn first_crlf(b: Seq<u8>) -> Option<nat>
    decreases b.len(),
{
    if b.len() < 2 {
        None
    } else if b[0] == 13 && b[1] == 10 {
        Some(0)
    } else {
        match first_crlf(b.drop_first()) {
            Some(i) => Some(i + 1),
            None => None,
        }
    }
}

/// What `usize::from_str_radix(_, 16)` gives.
pub open spec fn hex_usize_text(s: Seq<char>) -> Option<usize> {
    let d = unsigned_digits(s);
    if d.len() > 0 && all_hex_digits(d) && hex_value(d) <= usize::MAX {
        Some(hex_value(d) as usize)
    } else {
        None
    }
}

/// Whether byte index `k` of UTF-8 bytes `b` starts a character (or is the end).
pub open spec fn at_char_boundary(b: Seq<u8>, k: int) -> bool {
    k == b.len() || (0 <= k < b.len() && !is_continuation_byte(b[k]))
}

/// The data of a chunked body (`<hex size>\r\n<data>\r\n`... up to a zero
/// size), read as far as it goes: reading stops, keeping what was read, at
/// the end, at a line without CR LF, at a size that does not parse, or at
/// size zero. `None` where a chunk does not end two bytes before the rest
/// (or within the text), or where a chunk's data or the rest does not
/// start at a character: there the reading cannot slice the text.
pub open spec fn chunked_data(b: Seq<u8>) -> Option<Seq<u8>>
    decreases b.len(),
{
    if b.len() == 0 {
        Some(Seq::empty())
    } else {
        match first_crlf(b) {
            None => Some(Seq::empty()),
            Some(e) => match hex_usize_text(trimmed(decode_utf8(b.take(e as int)))) {
                None => Some(Seq::empty()),
                Some(size) => if size == 0 {
                    Some(Seq::empty())
                } else {
                    let start = e + 2;
                    let end = start + size;
                    if end + 2 > b.len() || !at_char_boundary(b, end) || !at_char_boundary(b, end + 2) {
                        None
                    } else {
                        match chunked_data(b.skip(end + 2)) {
                            None => None,
                            Some(rest) => Some(b.subrange(start as int, end as int) + rest),
                        }
                    }
                },
            },
        }
    }
}

/// The UTF-8 text of bytes (`String::from_utf8`): `None` where they are
/// not valid UTF-8, else the decoded characters.
#[verifier::external_body]
fn text_from_utf8(bytes: Vec<u8>) -> (r: Option<String>)
    ensures
        r is Some <==> valid_utf8(bytes@),
        r matches Some(s) ==> s@ == decode_utf8(bytes@),
{
    String::from_utf8(bytes).ok()
}

/// In valid UTF-8, the byte after an ASCII byte at a character boundary
/// is a boundary too.
pub proof fn lemma_boundary_after_ascii(b: Seq<u8>, i: int)
    requires
        valid_utf8(b),
        0 <= i < b.len(),
        vstd::utf8::is_char_boundary(b, i),
        b[i] < 0x80,
    ensures
        vstd::utf8::is_char_boundary(b, i + 1),
    decreases b.len(),
{
    let l = vstd::utf8::length_of_first_scalar(b);
    if i < l {
        if i > 0 {
            vstd::utf8::is_char_boundary_iff_not_is_continuation_byte(b, i);
        }
        reveal_with_fuel(vstd::utf8::is_char_boundary, 2);
    } else {
        let p = vstd::utf8::pop_first_scalar(b);
        assert(p[i - l] == b[i]);
        lemma_boundary_after_ascii(p, i - l);
    }
}

/// Byte index of the first CR LF in `b[lo..]`, or `b.len()`.
fn find_crlf(b: &Vec<u8>, lo: usize) -> (q: usize)
    requires
        lo <= b.len(),
    ensures
        lo <= q <= b.len(),
        first_crlf(b@.skip(lo as int)) == if q < b.len() {
            Some((q - lo) as nat)
        } else {
            None::<nat>
        },
        q < b.len() ==> q + 1 < b.len() && b@[q as int] == 13 && b@[q + 1] == 10,
{
    let n = b.len();
    let mut q = lo;
    while q < n
        invariant
            lo <= q <= n == b.len(),
            first_crlf(b@.skip(lo as int)) == match first_crlf(b@.skip(q as int)) {
                Some(i) => Some((i + (q - lo)) as nat),
                None => None,
            },
        decreases n - q,
    {
        let ghost s = b@.skip(q as int);
        if n - q < 2 {
            q = n;
            assert(first_crlf(s) is None);
            assert(first_crlf(b@.skip(q as int)) is None);
        } else {
            assert(s[0] == b@[q as int] && s[1] == b@[q + 1]);
            if b[q] == 13 && b[q + 1] == 10 {
                return q;
            }
            assert(s.drop_first() =~= b@.skip(q + 1));
            q = q + 1;
        }
    }
    assert(first_crlf(b@.skip(n as int)) is None);
    n
}

/// Parses a chunk size as `usize::from_str_radix(_, 16)` does.
fn parse_hex_usize(v: &Vec<char>, lo: usize, hi: usize) -> (r: Option<usize>)
    requires
        lo <= hi <= v.len(),
    ensures
        r == hex_usize_text(v@.subrange(lo as int, hi as int)),
{
    let ghost s = v@.subrange(lo as int, hi as int);
    let start = if lo < hi && v[lo] == '+' { lo + 1 } else { lo };
    let ghost d = v@.subrange(start as int, hi as int);
    assert(d =~= unsigned_digits(s));
    if start == hi {
        return None;
    }
    let cap: u128 = (usize::MAX as u128) + 1;
    let mut val: u128 = 0;
    let mut i = start;
    while i < hi
        invariant
            start <= i <= hi <= v.len(),
            cap == usize::MAX as int + 1,
            d == v@.subrange(start as int, hi as int),
            d == unsigned_digits(v@.subrange(lo as int, hi as int)),
            all_hex_digits(d.take(i - start)),
            val == if hex_value(d.take(i - start)) <= cap {
                hex_value(d.take(i - start))
            } else {
                cap as int
            },
        decreases hi - i,
    {
        let c = v[i];
        assert(d[i - start] == c);
        let digit: u128 = if '0' <= c && c <= '9' {
            ((c as u32) - ('0' as u32)) as u128
        } else if 'a' <= c && c <= 'f' {
            ((c as u32) - ('a' as u32) + 10) as u128
        } else if 'A' <= c && c <= 'F' {
            ((c as u32) - ('A' as u32) + 10) as u128
        } else {
            assert(!all_hex_digits(d));
            return None;
        };
        assert(d.take(i - start + 1).drop_last() == d.take(i - start));
        assert(all_hex_digits(d.take(i - start + 1)));
        if val >= cap {
            val = cap;
        } else {
            val = val * 16 + digit;
            if val > cap {
                val = cap;
            }
        }
        i = i + 1;
    }
    assert(d.take(hi - start) == d);
    if val >= cap {
        None
    } else {
        Some(val as usize)
    }
}

/// Cutting valid UTF-8 around a chunk (size line, CR LF, data, CR LF) at
/// character boundaries leaves valid UTF-8 pieces.
pub proof fn lemma_chunk_pieces(r: Seq<u8>, e: int, size: int)
    requires
        valid_utf8(r),
        0 <= e,
        e + 1 < r.len(),
        r[e] == 13,
        r[e + 1] == 10,
        size >= 0,
        e + 2 + size + 2 <= r.len(),
        at_char_boundary(r, e + 2 + size),
        at_char_boundary(r, e + 2 + size + 2),
    ensures
        valid_utf8(r.take(e)),
        valid_utf8(r.subrange(e + 2, e + 2 + size)),
        valid_utf8(r.skip(e + 2 + size + 2)),
{
    vstd::utf8::is_char_boundary_iff_not_is_continuation_byte(r, e);
    vstd::utf8::is_char_boundary_iff_not_is_continuation_byte(r, e + 1);
    vstd::utf8::valid_utf8_split(r, e);
    assert(r.subrange(0, e) =~= r.take(e));
    lemma_boundary_after_ascii(r, e + 1);
    vstd::utf8::valid_utf8_split(r, e + 2);
    let r2 = r.subrange(e + 2, r.len() as int);
    assert(r2[size] == r[e + 2 + size]);
    vstd::utf8::is_char_boundary_iff_not_is_continuation_byte(r2, size);
    vstd::utf8::valid_utf8_split(r2, size);
    assert(r2.subrange(0, size) =~= r.subrange(e + 2, e + 2 + size));
    let r3 = r2.subrange(size, r2.len() as int);
    if e + 2 + size + 2 == r.len() {
        assert(r.skip(e + 2 + size + 2) =~= Seq::<u8>::empty());
    } else {
        assert(r3[2] == r[e + 2 + size + 2]);
        vstd::utf8::is_char_boundary_iff_not_is_continuation_byte(r3, 2);
        vstd::utf8::valid_utf8_split(r3, 2);
        assert(r3.subrange(2, r3.len() as int) =~= r.skip(e + 2 + size + 2));
    }
}

/// The bytes `b[lo..hi]`.
fn bytes_between(b: &Vec<u8>, lo: usize, hi: usize) -> (r: Vec<u8>)
    requires
        lo <= hi <= b.len(),
    ensures
        r@ == b@.subrange(lo as int, hi as int),
{
    let mut r: Vec<u8> = Vec::new();
    let mut i = lo;
    while i < hi
        invariant
            lo <= i <= hi <= b.len(),
            r@ == b@.subrange(lo as int, i as int),
        decreases hi - i,
    {
        r.push(b[i]);
        assert(b@.subrange(lo as int, i + 1) == b@.subrange(lo as int, i as int).push(b@[i as int]));
        i = i + 1;
    }
    r
}

/// Decodes a chunked transfer-encoded body; see `chunked_data`. `None`
/// exactly where `chunked_data` has nothing (where slicing the text fails).
pub fn decode_chunked(raw: &str) -> (r: Option<String>)
    ensures
        match (r, chunked_data(vstd::utf8::encode_utf8(raw@))) {
            (Some(s), Some(d)) => s@ == decode_utf8(d),
            (None, None) => true,
            _ => false,
        },
{
    let b = raw.as_bytes_vec();
    proof {
        vstd::utf8::encode_utf8_valid_utf8(raw@);
        assert(b@.skip(0) =~= b@);
        assert(Seq::<u8>::empty() + b@ =~= b@);
    }
    let n = b.len();
    let mut out: Vec<u8> = Vec::new();
    let mut p: usize = 0;
    loop
        invariant
            p <= n == b.len(),
            b@ == vstd::utf8::encode_utf8(raw@),
            valid_utf8(b@.skip(p as int)),
            valid_utf8(out@),
            chunked_data(b@) == match chunked_data(b@.skip(p as int)) {
                Some(d) => Some(out@ + d),
                None => None,
            },
        ensures
            valid_utf8(out@),
            chunked_data(b@) == Some(out@),
        decreases n - p,
    {
        let ghost r = b@.skip(p as int);
        if p == n {
            assert(chunked_data(r)->0 =~= Seq::<u8>::empty());
            assert(out@ + Seq::<u8>::empty() =~= out@);
            break;
        }
        let q = find_crlf(&b, p);
        if q == n {
            assert(chunked_data(r)->0 =~= Seq::<u8>::empty());
            assert(out@ + Seq::<u8>::empty() =~= out@);
            break;
        }
        let ghost e = q - p;
        assert(r[e] == b@[q as int] && r[e + 1] == b@[q + 1]);
        let line = bytes_between(&b, p, q);
        assert(line@ =~= r.take(e));
        proof {
            vstd::utf8::is_char_boundary_iff_not_is_continuation_byte(r, e);
            vstd::utf8::valid_utf8_split(r, e);
            assert(r.subrange(0, e) =~= r.take(e));
        }
        let text = match text_from_utf8(line) {
            Some(t) => t,
            None => {
                break;
            },
        };
        let cs = chars_of(text.as_str());
        let (ta, tb) = trim_range(&cs, 0, cs.len());
        assert(cs@.subrange(0, cs.len() as int) =~= cs@);
        assert(trimmed(decode_utf8(r.take(e))) == cs@.subrange(ta as int, tb as int));
        let size = match parse_hex_usize(&cs, ta, tb) {
            Some(s) => s,
            None => {
                assert(chunked_data(r)->0 =~= Seq::<u8>::empty());
                assert(out@ + Seq::<u8>::empty() =~= out@);
                break;
            },
        };
        if size == 0 {
            assert(chunked_data(r)->0 =~= Seq::<u8>::empty());
            assert(out@ + Seq::<u8>::empty() =~= out@);
            break;
        }
        let start = q + 2;
        if size > n - start || n - start - size < 2 {
            assert(chunked_data(r) is None);
            return None;
        }
        let end = start + size;
        assert(r[e + 2 + size] == b@[end as int]);
        if end + 2 < n {
            assert(r[e + 2 + size + 2] == b@[end + 2]);
        }
        if (0x80 <= b[end] && b[end] <= 0xbf) || (end + 2 < n && 0x80 <= b[end + 2] && b[end + 2] <= 0xbf) {
            assert(chunked_data(r) is None);
            return None;
        }
        proof {
            lemma_chunk_pieces(r, e, size as int);
            assert(r.subrange(e + 2, e + 2 + size) =~= b@.subrange(start as int, end as int));
            assert(r.skip(e + 2 + size + 2) =~= b@.skip(end + 2));
        }
        let ghost before = out@;
        let mut i = start;
        while i < end
            invariant
                start <= i <= end <= n == b.len(),
                out@ == before + b@.subrange(start as int, i as int),
            decreases end - i,
        {
            out.push(b[i]);
            assert(before + b@.subrange(start as int, i + 1) =~= (before + b@.subrange(start as int, i as int)).push(b@[i as int]));
            i = i + 1;
        }
        proof {
            vstd::utf8::valid_utf8_concat(before, b@.subrange(start as int, end as int));
            let piece = b@.subrange(start as int, end as int);
            match chunked_data(b@.skip(end + 2)) {
                Some(d) => {
                    assert(chunked_data(r) == Some(piece + d));
                    assert(out@ + d =~= before + (piece + d));
                },
                None => {
                    assert(chunked_data(r) is None);
                },
            }
        }
        p = end + 2;
    }
    text_from_utf8(out)
}

/// Simple chunked transfer encoding parser; see `chunked_data`.
pub fn parse_chunked_body(raw: &str) -> (r: String)
    requires
        chunked_data(vstd::utf8::encode_utf8(raw@)) is Some,
    ensures
        r@ == decode_utf8(chunked_data(vstd::utf8::encode_utf8(raw@))->0),
{
    match decode_chunked(raw) {
        Some(s) => s,
        None => String::new(),
    }
}

// ---------------------------------------------------------------- responses

/// The first line of a text as `str::lines` gives it: up to the first
/// `\n`, without a `\r` just before it; `None` for the empty text.
pub open spec fn first_line(s: Seq<char>) -> Option<Seq<char>> {
    if s.len() == 0 {
        None
    } else {
        match first_index(s, '\n') {
            Some(i) => {
                let l = s.take(i as int);
                if l.len() > 0 && l.last() == '\r' {
                    Some(l.drop_last())
                } else {
                    Some(l)
                }
            },
            None => Some(s),
        }
    }
}

/// The status code: the second word of the first line, as a 16-bit number.
pub open spec fn http_status(s: Seq<char>) -> Option<u16> {
    match first_line(s) {
        None => None,
        Some(l) => {
            let w = words(l);
            if w.len() >= 2 {
                u16_text(w[1])
            } else {
                None
            }
        },
    }
}

/// Index of the first blank line marker `\r\n\r\n` in `s`.
pub open spec fn first_blank(s: Seq<char>) -> Option<nat>
    decreases s.len(),
{
    if s.len() < 4 {
        None
    } else if s[0] == '\r' && s[1] == '\n' && s[2] == '\r' && s[3] == '\n' {
        Some(0)
    } else {
        match first_blank(s.drop_first()) {
            Some(i) => Some(i + 1),
            None => None,
        }
    }
}

/// The text after the first blank line marker `\r\n\r\n` (the body of a
/// response), or the empty text where there is none.
pub open spec fn after_blank(s: Seq<char>) -> Seq<char> {
    match first_blank(s) {
        None => Seq::empty(),
        Some(i) => s.skip((i + 4) as int),
    }
}

/// Whether `s` holds `transfer-encoding: chunked` (exact case).
pub open spec fn has_chunked_header(s: Seq<char>) -> bool {
    exists|i: int| 0 <= i && i + 26 <= s.len() && #[trigger] s.subrange(i, i + 26) == "transfer-encoding: chunked"@
}

/// Whether the body of a response can be read: it is not chunked, or its
/// chunks can be sliced.
pub open spec fn body_readable(s: Seq<char>) -> bool {
    !has_chunked_header(s) || chunked_data(vstd::utf8::encode_utf8(after_blank(s))) is Some
}

/// The body of a response: all the text after the header's blank line,
/// decoded where the response is chunked.
pub open spec fn http_body(s: Seq<char>) -> Seq<char> {
    if has_chunked_header(s) {
        decode_utf8(chunked_data(vstd::utf8::encode_utf8(after_blank(s)))->0)
    } else {
        after_blank(s)
    }
}

/// First index `q >= lo` where `\r\n\r\n` starts in `v`, or `v.len()`.
fn find_blank(v: &Vec<char>, lo: usize) -> (q: usize)
    requires
        lo <= v.len(),
    ensures
        lo <= q <= v.len(),
        first_blank(v@.skip(lo as int)) == if q < v.len() {
            Some((q - lo) as nat)
        } else {
            None::<nat>
        },
        q < v.len() ==> q + 4 <= v.len(),
{
    let n = v.len();
    let mut q = lo;
    while q < n
        invariant
            lo <= q <= n == v.len(),
            first_blank(v@.skip(lo as int)) == match first_blank(v@.skip(q as int)) {
                Some(i) => Some((i + (q - lo)) as nat),
                None => None,
            },
        decreases n - q,
    {
        let ghost s = v@.skip(q as int);
        if n - q < 4 {
            q = n;
            assert(first_blank(s) is None);
            assert(first_blank(v@.skip(q as int)) is None);
        } else {
            assert(s[0] == v@[q as int] && s[1] == v@[q + 1] && s[2] == v@[q + 2] && s[3] == v@[q + 3]);
            if v[q] == '\r' && v[q + 1] == '\n' && v[q + 2] == '\r' && v[q + 3] == '\n' {
                return q;
            }
            assert(s.drop_first() =~= v@.skip(q + 1));
            q = q + 1;
        }
    }
    assert(first_blank(v@.skip(n as int)) is None);
    n
}

/// Whether `v` holds `pat` somewhere.
fn holds_text(v: &Vec<char>, pat: &str) -> (r: bool)
    ensures
        r == exists|i: int| 0 <= i && i + pat@.len() <= v@.len() && #[trigger] v@.subrange(i, i + pat@.len()) == pat@,
{
    let p = chars_of(pat);
    if p.len() > v.len() {
        return false;
    }
    let mut i: usize = 0;
    while i <= v.len() - p.len()
        invariant
            p@ == pat@,
            p.len() <= v.len(),
            i <= v.len() - p.len() + 1,
            forall|k: int| 0 <= k < i ==> #[trigger] v@.subrange(k, k + pat@.len()) != pat@,
        decreases v.len() - i,
    {
        let mut j: usize = 0;
        while j < p.len() && v[i + j] == p[j]
            invariant
                j <= p.len(),
                i + p.len() <= v.len(),
                forall|m: int| 0 <= m < j ==> v@[i + m] == p@[m],
            decreases p.len() - j,
        {
            j = j + 1;
        }
        if j == p.len() {
            assert(v@.subrange(i as int, i + pat@.len()) =~= pat@);
            return true;
        }
        assert(v@.subrange(i as int, i + pat@.len())[j as int] != pat@[j as int]);
        i = i + 1;
    }
    assert forall|k: int| 0 <= k && k + pat@.len() <= v@.len() implies #[trigger] v@.subrange(k, k + pat@.len()) != pat@ by {
        assert(k < i);
    }
    false
}

/// The text of `v` after its first `\r\n\r\n`; see `after_blank`.
fn after_blank_text(v: &Vec<char>) -> (r: String)
    ensures
        r@ == after_blank(v@),
{
    assert(v@.skip(0) =~= v@);
    let a = find_blank(v, 0);
    if a == v.len() {
        return String::new();
    }
    assert(first_blank(v@) == Some(a as nat));
    let r = crate::text::text_of(v, a + 4, v.len());
    assert(v@.skip(a + 4) =~= v@.subrange(a + 4, v.len() as int));
    r
}

/// Whether `v` holds `transfer-encoding: chunked`.
fn chunked_header(v: &Vec<char>) -> (r: bool)
    ensures
        r == has_chunked_header(v@),
{
    proof {
        reveal_strlit("transfer-encoding: chunked");
    }
    if !holds_text(v, "transfer-encoding: chunked") {
        assert(!has_chunked_header(v@)) by {
            assert forall|i: int| 0 <= i && i + 26 <= v@.len() implies #[trigger] v@.subrange(i, i + 26) != "transfer-encoding: chunked"@ by {
                assert(v@.subrange(i, i + "transfer-encoding: chunked"@.len()) != "transfer-encoding: chunked"@);
            }
        }
        return false;
    }
    assert(has_chunked_header(v@)) by {
        let i = choose|i: int| 0 <= i && i + "transfer-encoding: chunked"@.len() <= v@.len() && #[trigger] v@.subrange(i, i + "transfer-encoding: chunked"@.len()) == "transfer-encoding: chunked"@;
        assert(v@.subrange(i, i + 26) == "transfer-encoding: chunked"@);
    }
    true
}

/// Whether the body of a response can be read; see `body_readable`.
pub fn response_body_readable(text: &str) -> (r: bool)
    ensures
        r == body_readable(text@),
{
    let v = chars_of(text);
    if !chunked_header(&v) {
        return true;
    }
    let piece = after_blank_text(&v);
    decode_chunked(piece.as_str()).is_some()
}

/// The status code of an HTTP response; see `http_status`.
pub fn response_status(text: &str) -> (r: Option<u16>)
    ensures
        r == http_status(text@),
{
    let v = chars_of(text);
    if v.len() == 0 {
        return None;
    }
    let nl = find_char(&v, 0, v.len(), '\n');
    proof {
        assert(v@.subrange(0, v.len() as int) =~= v@);
        crate::parse::lemma_first_index(v@, '\n', nl as int);
        assert forall|j: int| 0 <= j < nl implies v@[j] != '\n' by {}
    }
    let line_end = if nl < v.len() && nl > 0 && v[nl - 1] == '\r' {
        nl - 1
    } else {
        nl
    };
    proof {
        if nl < v.len() {
            assert(v@.take(nl as int) =~= v@.subrange(0, nl as int));
            if nl > 0 {
                assert(v@.take(nl as int).last() == v@[nl - 1]);
                assert(v@.take(nl as int).drop_last() =~= v@.subrange(0, nl - 1));
            }
        }
        assert(first_line(v@) == Some(v@.subrange(0, line_end as int)));
    }
    let ws = word_ranges(&v, 0, line_end);
    if ws.len() < 2 {
        return None;
    }
    let (a, b) = ws[1];
    assert(0 <= ws@[1].0 <= ws@[1].1 <= line_end);
    parse_u16(&v, a, b)
}

/// Reads an HTTP response: its status code and body. `None` where the
/// status line does not give a status code.
pub fn parse_http_response(text: &str) -> (r: Option<(u16, String)>)
    requires
        http_status(text@) is Some ==> body_readable(text@),
    ensures
        match r {
            Some((code, body)) => http_status(text@) == Some(code) && body@ == http_body(text@),
            None => http_status(text@) is None,
        },
{
    let code = match response_status(text) {
        Some(c) => c,
        None => {
            return None;
        },
    };
    let v = chars_of(text);
    let piece = after_blank_text(&v);
    if chunked_header(&v) {
        Some((code, parse_chunked_body(piece.as_str())))
    } else {
        Some((code, piece))
    }
}

} // verus!
