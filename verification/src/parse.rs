//! Text grammars: separator splitting, whitespace-separated words, decimal
//! and hexadecimal numbers, and IPv4/IPv6 addresses in the forms that the
//! standard library's address parsers accept.

use vstd::prelude::*;

use crate::text::{is_space, is_space_exec};

verus! {

// ---------------------------------------------------------------- splitting

/// Index of the first `c` in `s`.
pub open spec fn first_index(s: Seq<char>, c: char) -> Option<nat>
    decreases s.len(),
{
    if s.len() == 0 {
        None
    } else if s[0] == c {
        Some(0)
    } else {
        match first_index(s.drop_first(), c) {
            Some(i) => Some(i + 1),
            None => None,
        }
    }
}

/// The pieces of `s` between occurrences of `sep` (`str::split` with a char).
pub open spec fn split_on(s: Seq<char>, sep: char) -> Seq<Seq<char>>
    decreases s.len(),
{
    match first_index(s, sep) {
        Some(i) => if i < s.len() {
            seq![s.take(i as int)] + split_on(s.skip((i + 1) as int), sep)
        } else {
            seq![s]
        },
        None => seq![s],
    }
}

/// `first_index` is the first position holding the character, if any.
pub proof fn lemma_first_index(s: Seq<char>, c: char, i: int)
    requires
        0 <= i <= s.len(),
        forall|j: int| 0 <= j < i ==> s[j] != c,
    ensures
        i < s.len() && s[i] == c ==> first_index(s, c) == Some(i as nat),
        i == s.len() ==> first_index(s, c) == None::<nat>,
    decreases i,
{
    if i > 0 {
        lemma_first_index(s.drop_first(), c, i - 1);
    } else if s.len() > 0 {
    }
}

/// A piece of a char vector, `v[lo..hi]`.
pub open spec fn piece(v: Seq<char>, r: (usize, usize)) -> Seq<char> {
    v.subrange(r.0 as int, r.1 as int)
}

/// The pieces named by a list of ranges.
pub open spec fn pieces(v: Seq<char>, rs: Seq<(usize, usize)>) -> Seq<Seq<char>> {
    rs.map_values(|r: (usize, usize)| piece(v, r))
}

/// Every range lies within `[lo, hi]` and is well ordered.
pub open spec fn ranges_within(rs: Seq<(usize, usize)>, lo: usize, hi: usize) -> bool {
    forall|i: int| 0 <= i < rs.len() ==> lo <= (#[trigger] rs[i]).0 <= rs[i].1 <= hi
}

/// First index `q` in `[lo, hi)` with `v[q] == c`, or `hi`.
pub fn find_char(v: &Vec<char>, lo: usize, hi: usize, c: char) -> (q: usize)
    requires
        lo <= hi <= v.len(),
    ensures
        lo <= q <= hi,
        forall|j: int| lo <= j < q ==> v@[j] != c,
        q < hi ==> v@[q as int] == c,
{
    let mut q = lo;
    while q < hi
        invariant
            lo <= q <= hi <= v.len(),
            forall|j: int| lo <= j < q ==> v@[j] != c,
        decreases hi - q,
    {
        if v[q] == c {
            return q;
        }
        q = q + 1;
    }
    q
}

/// The ranges of the pieces of `v[lo..hi]` between occurrences of `sep`.
pub fn split_ranges(v: &Vec<char>, lo: usize, hi: usize, sep: char) -> (rs: Vec<(usize, usize)>)
    requires
        lo <= hi <= v.len(),
    ensures
        ranges_within(rs@, lo, hi),
        pieces(v@, rs@) == split_on(v@.subrange(lo as int, hi as int), sep),
{
    let mut rs: Vec<(usize, usize)> = Vec::new();
    let mut p = lo;
    loop
        invariant
            lo <= p <= hi <= v.len(),
            ranges_within(rs@, lo, hi),
            pieces(v@, rs@) + split_on(v@.subrange(p as int, hi as int), sep)
                == split_on(v@.subrange(lo as int, hi as int), sep),
        decreases hi - p,
    {
        let q = find_char(v, p, hi, sep);
        let ghost s = v@.subrange(p as int, hi as int);
        proof {
            assert forall|j: int| 0 <= j < q - p implies s[j] != sep by {
                assert(s[j] == v@[p + j]);
            }
            lemma_first_index(s, sep, q - p);
        }
        if q == hi {
            proof {
                assert(split_on(s, sep) == seq![s]);
                assert(pieces(v@, rs@.push((p, hi))) =~= pieces(v@, rs@).push(s));
                assert(pieces(v@, rs@).push(s) =~= pieces(v@, rs@) + seq![s]);
            }
            rs.push((p, hi));
            return rs;
        }
        proof {
            assert(s[q - p] == v@[q as int]);
            assert(s.take(q - p) =~= v@.subrange(p as int, q as int));
            assert(s.skip(q - p + 1) =~= v@.subrange(q + 1, hi as int));
            assert(split_on(s, sep) == seq![s.take(q - p)] + split_on(s.skip(q - p + 1), sep));
            assert(pieces(v@, rs@.push((p, q))) =~= pieces(v@, rs@).push(v@.subrange(p as int, q as int)));
            assert(pieces(v@, rs@.push((p, q))) + split_on(v@.subrange(q + 1, hi as int), sep)
                =~= pieces(v@, rs@) + split_on(s, sep));
        }
        rs.push((p, q));
        p = q + 1;
    }
}

// ---------------------------------------------------------------- words

/// Length of the leading run of non-space characters of `s`.
pub open spec fn word_len(s: Seq<char>) -> nat
    decreases s.len(),
{
    if s.len() == 0 || is_space(s[0]) {
        0
    } else {
        word_len(s.drop_first()) + 1
    }
}

/// The maximal runs of non-space characters of `s` (`str::split_whitespace`).
pub open spec fn words(s: Seq<char>) -> Seq<Seq<char>>
    decreases s.len(),
{
    if s.len() == 0 {
        Seq::empty()
    } else if is_space(s[0]) {
        words(s.drop_first())
    } else {
        let n = word_len(s);
        if 0 < n <= s.len() {
            seq![s.take(n as int)] + words(s.skip(n as int))
        } else {
            Seq::empty()
        }
    }
}

/// `word_len` is the length of the leading run of non-space characters.
pub proof fn lemma_word_len(s: Seq<char>, i: int)
    requires
        0 <= i <= s.len(),
        forall|j: int| 0 <= j < i ==> !is_space(s[j]),
        i == s.len() || is_space(s[i]),
    ensures
        word_len(s) == i,
    decreases i,
{
    if i > 0 {
        lemma_word_len(s.drop_first(), i - 1);
    }
}

/// The ranges of the whitespace-separated words of `v[lo..hi]`.
pub fn word_ranges(v: &Vec<char>, lo: usize, hi: usize) -> (rs: Vec<(usize, usize)>)
    requires
        lo <= hi <= v.len(),
    ensures
        ranges_within(rs@, lo, hi),
        pieces(v@, rs@) == words(v@.subrange(lo as int, hi as int)),
{
    let mut rs: Vec<(usize, usize)> = Vec::new();
    let mut p = lo;
    while p < hi
        invariant
            lo <= p <= hi <= v.len(),
            ranges_within(rs@, lo, hi),
            pieces(v@, rs@) + words(v@.subrange(p as int, hi as int))
                == words(v@.subrange(lo as int, hi as int)),
        decreases hi - p,
    {
        let ghost s = v@.subrange(p as int, hi as int);
        if is_space_exec(v[p]) {
            proof {
                assert(s.drop_first() =~= v@.subrange(p + 1, hi as int));
            }
            p = p + 1;
        } else {
            let mut q = p + 1;
            while q < hi && !is_space_exec(v[q])
                invariant
                    p < q <= hi <= v.len(),
                    forall|j: int| p <= j < q ==> !is_space(v@[j]),
                decreases hi - q,
            {
                q = q + 1;
            }
            proof {
                assert forall|j: int| 0 <= j < q - p implies !is_space(s[j]) by {
                    assert(s[j] == v@[p + j]);
                }
                if q < hi {
                    assert(s[q - p] == v@[q as int]);
                }
                lemma_word_len(s, q - p);
                assert(s.take(q - p) =~= v@.subrange(p as int, q as int));
                assert(s.skip(q - p) =~= v@.subrange(q as int, hi as int));
                assert(pieces(v@, rs@.push((p, q))) =~= pieces(v@, rs@).push(v@.subrange(p as int, q as int)));
                assert(pieces(v@, rs@.push((p, q))) + words(v@.subrange(q as int, hi as int))
                    =~= pieces(v@, rs@) + words(s));
            }
            rs.push((p, q));
            p = q;
        }
    }
    proof {
        assert(words(v@.subrange(p as int, hi as int)) =~= Seq::<Seq<char>>::empty());
        assert(pieces(v@, rs@) =~= pieces(v@, rs@) + Seq::<Seq<char>>::empty());
    }
    rs
}

/// Index of the first space character in `s`.
pub open spec fn first_space(s: Seq<char>) -> Option<nat>
    decreases s.len(),
{
    if s.len() == 0 {
        None
    } else if is_space(s[0]) {
        Some(0)
    } else {
        match first_space(s.drop_first()) {
            Some(i) => Some(i + 1),
            None => None,
        }
    }
}

/// `first_space` is the first position holding a space, if any.
pub proof fn lemma_first_space(s: Seq<char>, i: int)
    requires
        0 <= i <= s.len(),
        forall|j: int| 0 <= j < i ==> !is_space(s[j]),
    ensures
        i < s.len() && is_space(s[i]) ==> first_space(s) == Some(i as nat),
        i == s.len() ==> first_space(s) == None::<nat>,
    decreases i,
{
    if i > 0 {
        lemma_first_space(s.drop_first(), i - 1);
    }
}

/// First index `q` in `[lo, hi)` with `v[q]` a space character, or `hi`.
pub fn find_space(v: &Vec<char>, lo: usize, hi: usize) -> (q: usize)
    requires
        lo <= hi <= v.len(),
    ensures
        lo <= q <= hi,
        forall|j: int| lo <= j < q ==> !is_space(v@[j]),
        q < hi ==> is_space(v@[q as int]),
        first_space(v@.subrange(lo as int, hi as int)) == if q < hi {
            Some((q - lo) as nat)
        } else {
            None::<nat>
        },
{
    let mut q = lo;
    while q < hi && !is_space_exec(v[q])
        invariant
            lo <= q <= hi <= v.len(),
            forall|j: int| lo <= j < q ==> !is_space(v@[j]),
        decreases hi - q,
    {
        q = q + 1;
    }
    proof {
        let s = v@.subrange(lo as int, hi as int);
        assert forall|j: int| 0 <= j < q - lo implies !is_space(s[j]) by {
            assert(s[j] == v@[lo + j]);
        }
        if q < hi {
            assert(s[q - lo] == v@[q as int]);
        }
        lemma_first_space(s, q - lo);
    }
    q
}

// ---------------------------------------------------------------- numbers

/// An ASCII decimal digit.
pub open spec fn is_digit(c: char) -> bool {
    '0' <= c && c <= '9'
}

/// An ASCII hexadecimal digit, in either case.
pub open spec fn is_hex_digit(c: char) -> bool {
    is_digit(c) || ('a' <= c && c <= 'f') || ('A' <= c && c <= 'F')
}

/// The value of a decimal digit.
pub open spec fn digit_value(c: char) -> int {
    c as int - '0' as int
}

/// The value of a hexadecimal digit.
pub open spec fn hex_digit_value(c: char) -> int {
    if is_digit(c) {
        c as int - '0' as int
    } else if 'a' <= c && c <= 'f' {
        c as int - 'a' as int + 10
    } else {
        c as int - 'A' as int + 10
    }
}

/// Every character is a decimal digit.
pub open spec fn all_digits(s: Seq<char>) -> bool {
    forall|i: int| 0 <= i < s.len() ==> is_digit(#[trigger] s[i])
}

/// Every character is a hexadecimal digit.
pub open spec fn all_hex_digits(s: Seq<char>) -> bool {
    forall|i: int| 0 <= i < s.len() ==> is_hex_digit(#[trigger] s[i])
}

/// The value of a string of decimal digits.
pub open spec fn decimal_value(s: Seq<char>) -> int
    decreases s.len(),
{
    if s.len() == 0 {
        0
    } else {
        decimal_value(s.drop_last()) * 10 + digit_value(s.last())
    }
}

/// The value of a string of hexadecimal digits.
pub open spec fn hex_value(s: Seq<char>) -> int
    decreases s.len(),
{
    if s.len() == 0 {
        0
    } else {
        hex_value(s.drop_last()) * 16 + hex_digit_value(s.last())
    }
}

/// The digits of an unsigned number text: without one leading `+`.
pub open spec fn unsigned_digits(s: Seq<char>) -> Seq<char> {
    if s.len() > 0 && s[0] == '+' {
        s.drop_first()
    } else {
        s
    }
}

/// What `u16::from_str` gives: an optional `+`, then one or more decimal
/// digits whose value fits in 16 bits.
pub open spec fn u16_text(s: Seq<char>) -> Option<u16> {
    let d = unsigned_digits(s);
    if d.len() > 0 && all_digits(d) && decimal_value(d) <= u16::MAX {
        Some(decimal_value(d) as u16)
    } else {
        None
    }
}

/// Parses `v[lo..hi]` as `u16::from_str` does.
pub fn parse_u16(v: &Vec<char>, lo: usize, hi: usize) -> (r: Option<u16>)
    requires
        lo <= hi <= v.len(),
    ensures
        r == u16_text(v@.subrange(lo as int, hi as int)),
{
    let ghost s = v@.subrange(lo as int, hi as int);
    let start = if lo < hi && v[lo] == '+' { lo + 1 } else { lo };
    let ghost d = v@.subrange(start as int, hi as int);
    assert(d =~= unsigned_digits(s));
    if start == hi {
        return None;
    }
    let mut val: u32 = 0;
    let mut i = start;
    while i < hi
        invariant
            start <= i <= hi <= v.len(),
            d == v@.subrange(start as int, hi as int),
            d == unsigned_digits(v@.subrange(lo as int, hi as int)),
            all_digits(d.take(i - start)),
            val == if decimal_value(d.take(i - start)) <= 65536 {
                decimal_value(d.take(i - start))
            } else {
                65536
            },
        decreases hi - i,
    {
        let c = v[i];
        assert(d[i - start] == c);
        if !('0' <= c && c <= '9') {
            assert(!all_digits(d));
            return None;
        }
        assert(d.take(i - start + 1).drop_last() == d.take(i - start));
        assert(all_digits(d.take(i - start + 1)));
        let digit = (c as u32) - ('0' as u32);
        if val >= 65536 {
            val = 65536;
        } else {
            val = val * 10 + digit;
            if val > 65536 {
                val = 65536;
            }
        }
        i = i + 1;
    }
    assert(d.take(hi - start) == d);
    if val > 65535 {
        None
    } else {
        Some(val as u16)
    }
}

// ---------------------------------------------------------------- addresses

/// One dotted-decimal field of an IPv4 address: one to three digits, no
/// leading zero unless the field is `0`, at most 255.
pub open spec fn octet_text(s: Seq<char>) -> Option<u8> {
    if 1 <= s.len() <= 3 && all_digits(s) && (s.len() == 1 || s[0] != '0') && decimal_value(s) <= 255 {
        Some(decimal_value(s) as u8)
    } else {
        None
    }
}

/// What `Ipv4Addr::from_str` gives: exactly four dot-separated fields.
pub open spec fn ipv4_text(s: Seq<char>) -> Option<Seq<u8>> {
    let parts = split_on(s, '.');
    if parts.len() == 4 && forall|i: int| 0 <= i < 4 ==> (#[trigger] octet_text(parts[i])) is Some {
        Some(parts.map_values(|p: Seq<char>| octet_text(p)->0))
    } else {
        None
    }
}

/// One group of an IPv6 address: one to four hexadecimal digits.
pub open spec fn group_text(s: Seq<char>) -> Option<u16> {
    if 1 <= s.len() <= 4 && all_hex_digits(s) {
        Some(hex_value(s) as u16)
    } else {
        None
    }
}

/// Values of pieces that are all IPv6 groups.
pub open spec fn groups_of(parts: Seq<Seq<char>>) -> Option<Seq<u16>> {
    if forall|i: int| 0 <= i < parts.len() ==> (#[trigger] group_text(parts[i])) is Some {
        Some(parts.map_values(|p: Seq<char>| group_text(p)->0))
    } else {
        None
    }
}

/// The two 16-bit groups that an embedded IPv4 address stands for.
pub open spec fn v4_groups(o: Seq<u8>) -> Seq<u16> {
    seq![(o[0] as int * 256 + o[1] as int) as u16, (o[2] as int * 256 + o[3] as int) as u16]
}

/// Values of pieces that are IPv6 groups, the last of which may instead be
/// an embedded IPv4 address.
pub open spec fn groups_ending_v4(parts: Seq<Seq<char>>) -> Option<Seq<u16>> {
    if parts.len() == 0 {
        Some(Seq::empty())
    } else {
        match (groups_of(parts.drop_last()), group_text(parts.last()), ipv4_text(parts.last())) {
            (Some(g), Some(x), _) => Some(g.push(x)),
            (Some(g), None, Some(o)) => Some(g + v4_groups(o)),
            _ => None,
        }
    }
}

/// Index of the first `::` in `s`.
pub open spec fn double_colon(s: Seq<char>) -> Option<nat>
    decreases s.len(),
{
    if s.len() < 2 {
        None
    } else if s[0] == ':' && s[1] == ':' {
        Some(0)
    } else {
        match double_colon(s.drop_first()) {
            Some(i) => Some(i + 1),
            None => None,
        }
    }
}

/// What `Ipv6Addr::from_str` gives. Without `::`, eight colon-separated
/// groups, or six and an embedded IPv4 address. With `::` (its first
/// occurrence), groups before it and groups after it (the last of which may
/// be an embedded IPv4 address), seven groups at most in all; `::` stands
/// for the zero groups between.
pub open spec fn ipv6_text(s: Seq<char>) -> Option<Seq<u16>> {
    match double_colon(s) {
        None => match groups_ending_v4(split_on(s, ':')) {
            Some(g) => if g.len() == 8 {
                Some(g)
            } else {
                None
            },
            None => None,
        },
        Some(p) => match (head_groups(s.take(p as int)), tail_groups(s.skip((p + 2) as int))) {
            (Some(h), Some(t)) => if h.len() + t.len() <= 7 {
                Some(with_zeros(h, t))
            } else {
                None
            },
            _ => None,
        },
    }
}

/// The groups before `::`.
pub open spec fn head_groups(head: Seq<char>) -> Option<Seq<u16>> {
    if head.len() == 0 {
        Some(Seq::<u16>::empty())
    } else {
        groups_of(split_on(head, ':'))
    }
}

/// The groups after `::`.
pub open spec fn tail_groups(tail: Seq<char>) -> Option<Seq<u16>> {
    if tail.len() == 0 {
        Some(Seq::<u16>::empty())
    } else {
        groups_ending_v4(split_on(tail, ':'))
    }
}

/// Eight groups: `h`, then zeros, then `t`.
pub open spec fn with_zeros(h: Seq<u16>, t: Seq<u16>) -> Seq<u16> {
    h + Seq::new((8 - h.len() - t.len()) as nat, |i: int| 0u16) + t
}

/// What `IpAddr::from_str` gives.
pub ghost enum IpText {
    V4(Seq<u8>),
    V6(Seq<u16>),
    Invalid,
}

/// What a text reads as: an IPv4 address, an IPv6 address, or neither.
pub open spec fn ip_text(s: Seq<char>) -> IpText {
    match ipv4_text(s) {
        Some(o) => IpText::V4(o),
        None => match ipv6_text(s) {
            Some(g) => IpText::V6(g),
            None => IpText::Invalid,
        },
    }
}

/// Parses `v[lo..hi]` as one dotted-decimal IPv4 field.
pub fn parse_octet(v: &Vec<char>, lo: usize, hi: usize) -> (r: Option<u8>)
    requires
        lo <= hi <= v.len(),
    ensures
        r == octet_text(v@.subrange(lo as int, hi as int)),
{
    let ghost s = v@.subrange(lo as int, hi as int);
    if hi - lo < 1 || hi - lo > 3 {
        return None;
    }
    let mut val: u32 = 0;
    let mut i = lo;
    while i < hi
        invariant
            lo <= i <= hi <= v.len(),
            hi - lo <= 3,
            s == v@.subrange(lo as int, hi as int),
            all_digits(s.take(i - lo)),
            val == decimal_value(s.take(i - lo)),
            val < pow10(i - lo),
        decreases hi - i,
    {
        let c = v[i];
        assert(s[i - lo] == c);
        if !('0' <= c && c <= '9') {
            return None;
        }
        assert(s.take(i - lo + 1).drop_last() == s.take(i - lo));
        assert(all_digits(s.take(i - lo + 1)));
        proof {
            lemma_powers();
        }
        assert(pow10(i - lo + 1) == 10 * pow10(i - lo));
        val = val * 10 + ((c as u32) - ('0' as u32));
        i = i + 1;
    }
    assert(s.take(hi - lo) == s);
    if hi - lo > 1 && v[lo] == '0' {
        assert(s[0] == '0');
        return None;
    }
    if val > 255 {
        None
    } else {
        Some(val as u8)
    }
}

/// Parses `v[lo..hi]` as one IPv6 group.
pub fn parse_group(v: &Vec<char>, lo: usize, hi: usize) -> (r: Option<u16>)
    requires
        lo <= hi <= v.len(),
    ensures
        r == group_text(v@.subrange(lo as int, hi as int)),
{
    let ghost s = v@.subrange(lo as int, hi as int);
    if hi - lo < 1 || hi - lo > 4 {
        return None;
    }
    let mut val: u32 = 0;
    let mut i = lo;
    while i < hi
        invariant
            lo <= i <= hi <= v.len(),
            hi - lo <= 4,
            s == v@.subrange(lo as int, hi as int),
            all_hex_digits(s.take(i - lo)),
            val == hex_value(s.take(i - lo)),
            val < pow16(i - lo),
        decreases hi - i,
    {
        let c = v[i];
        assert(s[i - lo] == c);
        let d: u32 = if '0' <= c && c <= '9' {
            (c as u32) - ('0' as u32)
        } else if 'a' <= c && c <= 'f' {
            (c as u32) - ('a' as u32) + 10
        } else if 'A' <= c && c <= 'F' {
            (c as u32) - ('A' as u32) + 10
        } else {
            return None;
        };
        assert(s.take(i - lo + 1).drop_last() == s.take(i - lo));
        assert(all_hex_digits(s.take(i - lo + 1)));
        assert(pow16(i - lo + 1) == 16 * pow16(i - lo));
        proof {
            lemma_powers();
        }
        val = val * 16 + d;
        i = i + 1;
    }
    assert(s.take(hi - lo) == s);
    proof {
        lemma_powers();
    }
    Some(val as u16)
}

/// Ten to the power `n`.
pub open spec fn pow10(n: int) -> int
    decreases n,
{
    if n <= 0 {
        1
    } else {
        10 * pow10(n - 1)
    }
}

/// The small powers of ten and sixteen.
pub proof fn lemma_powers()
    ensures
        pow10(0) == 1,
        pow10(1) == 10,
        pow10(2) == 100,
        pow10(3) == 1000,
        pow16(0) == 1,
        pow16(1) == 16,
        pow16(2) == 256,
        pow16(3) == 4096,
        pow16(4) == 65536,
{
    reveal_with_fuel(pow10, 4);
    reveal_with_fuel(pow16, 5);
}

/// Sixteen to the power `n`.
pub open spec fn pow16(n: int) -> int
    decreases n,
{
    if n <= 0 {
        1
    } else {
        16 * pow16(n - 1)
    }
}

/// Parses `v[lo..hi]` as `Ipv4Addr::from_str` does.
pub fn parse_ipv4(v: &Vec<char>, lo: usize, hi: usize) -> (r: Option<[u8; 4]>)
    requires
        lo <= hi <= v.len(),
    ensures
        match r {
            Some(a) => ipv4_text(v@.subrange(lo as int, hi as int)) == Some(a@),
            None => ipv4_text(v@.subrange(lo as int, hi as int)) is None,
        },
{
    let rs = split_ranges(v, lo, hi, '.');
    let ghost parts = pieces(v@, rs@);
    if rs.len() != 4 {
        return None;
    }
    let mut out: Vec<u8> = Vec::new();
    let mut i: usize = 0;
    while i < 4
        invariant
            i <= 4,
            rs.len() == 4,
            ranges_within(rs@, lo, hi),
            hi <= v.len(),
            parts == pieces(v@, rs@),
            parts == split_on(v@.subrange(lo as int, hi as int), '.'),
            out.len() == i,
            forall|j: int| 0 <= j < i ==> octet_text(parts[j]) == Some(#[trigger] out@[j]),
        decreases 4 - i,
    {
        let (a, b) = rs[i];
        assert(lo <= rs@[i as int].0 <= rs@[i as int].1 <= hi);
        match parse_octet(v, a, b) {
            Some(o) => {
                out.push(o);
            },
            None => {
                assert(parts[i as int] == v@.subrange(a as int, b as int));
                return None;
            },
        }
        i = i + 1;
    }
    let arr = [out[0], out[1], out[2], out[3]];
    proof {
        assert forall|j: int| 0 <= j < 4 implies (#[trigger] octet_text(parts[j])) is Some by {
            assert(octet_text(parts[j]) == Some(out@[j]));
        }
        assert(arr@ =~= parts.map_values(|p: Seq<char>| octet_text(p)->0));
    }
    Some(arr)
}

/// Parses the pieces `rs[from..to]` of `v` as IPv6 groups.
pub fn parse_groups(v: &Vec<char>, rs: &Vec<(usize, usize)>, from: usize, to: usize) -> (r: Option<Vec<u16>>)
    requires
        from <= to <= rs.len(),
        ranges_within(rs@, 0, v.len()),
    ensures
        match r {
            Some(g) => groups_of(pieces(v@, rs@).subrange(from as int, to as int)) == Some(g@),
            None => groups_of(pieces(v@, rs@).subrange(from as int, to as int)) is None,
        },
{
    let ghost parts = pieces(v@, rs@).subrange(from as int, to as int);
    let mut out: Vec<u16> = Vec::new();
    let mut i = from;
    while i < to
        invariant
            from <= i <= to <= rs.len(),
            ranges_within(rs@, 0, v.len()),
            parts == pieces(v@, rs@).subrange(from as int, to as int),
            out.len() == i - from,
            forall|j: int| 0 <= j < i - from ==> group_text(parts[j]) == Some(#[trigger] out@[j]),
        decreases to - i,
    {
        let (a, b) = rs[i];
        assert(0 <= rs@[i as int].0 <= rs@[i as int].1 <= v.len());
        match parse_group(v, a, b) {
            Some(g) => {
                out.push(g);
            },
            None => {
                assert(parts[i - from] == v@.subrange(a as int, b as int));
                assert(group_text(parts[i - from]) is None);
                return None;
            },
        }
        i = i + 1;
    }
    proof {
        assert forall|j: int| 0 <= j < parts.len() implies (#[trigger] group_text(parts[j])) is Some by {
            assert(group_text(parts[j]) == Some(out@[j]));
        }
        assert(out@ =~= parts.map_values(|p: Seq<char>| group_text(p)->0));
    }
    Some(out)
}

/// Parses the pieces `rs` of `v` as IPv6 groups, the last of which may be
/// an embedded IPv4 address.
pub fn parse_groups_ending_v4(v: &Vec<char>, rs: &Vec<(usize, usize)>) -> (r: Option<Vec<u16>>)
    requires
        ranges_within(rs@, 0, v.len()),
    ensures
        match r {
            Some(g) => groups_ending_v4(pieces(v@, rs@)) == Some(g@),
            None => groups_ending_v4(pieces(v@, rs@)) is None,
        },
{
    let ghost parts = pieces(v@, rs@);
    let n = rs.len();
    if n == 0 {
        return Some(Vec::new());
    }
    assert(parts.drop_last() =~= pieces(v@, rs@).subrange(0, n - 1));
    let init = parse_groups(v, rs, 0, n - 1);
    let (a, b) = rs[n - 1];
    assert(0 <= rs@[n - 1].0 <= rs@[n - 1].1 <= v.len());
    assert(parts.last() == v@.subrange(a as int, b as int));
    match init {
        None => None,
        Some(mut g) => {
            match parse_group(v, a, b) {
                Some(x) => {
                    g.push(x);
                    Some(g)
                },
                None => match parse_ipv4(v, a, b) {
                    Some(o) => {
                        let hi: u16 = (o[0] as u16) * 256 + (o[1] as u16);
                        let lo: u16 = (o[2] as u16) * 256 + (o[3] as u16);
                        let ghost before = g@;
                        g.push(hi);
                        g.push(lo);
                        assert(g@ =~= before + v4_groups(o@));
                        Some(g)
                    },
                    None => None,
                },
            }
        },
    }
}

/// Index of the first `::` in `v[lo..hi]`.
pub fn find_double_colon(v: &Vec<char>, lo: usize, hi: usize) -> (r: Option<usize>)
    requires
        lo <= hi <= v.len(),
    ensures
        match r {
            Some(q) => lo <= q && q + 2 <= hi && double_colon(v@.subrange(lo as int, hi as int)) == Some((q - lo) as nat),
            None => double_colon(v@.subrange(lo as int, hi as int)) is None,
        },
{
    let mut q = lo;
    while hi - q >= 2
        invariant
            lo <= q <= hi <= v.len(),
            double_colon(v@.subrange(lo as int, hi as int)) == match double_colon(v@.subrange(q as int, hi as int)) {
                Some(i) => Some((i + (q - lo)) as nat),
                None => None,
            },
        decreases hi - q,
    {
        let ghost s = v@.subrange(q as int, hi as int);
        assert(s[0] == v@[q as int] && s[1] == v@[q + 1]);
        if v[q] == ':' && v[q + 1] == ':' {
            return Some(q);
        }
        assert(s.drop_first() =~= v@.subrange(q + 1, hi as int));
        q = q + 1;
    }
    None
}

/// Parses the groups before `::`, held in `v[lo..hi]`.
fn parse_head(v: &Vec<char>, lo: usize, hi: usize) -> (r: Option<Vec<u16>>)
    requires
        lo <= hi <= v.len(),
    ensures
        match r {
            Some(g) => head_groups(v@.subrange(lo as int, hi as int)) == Some(g@),
            None => head_groups(v@.subrange(lo as int, hi as int)) is None,
        },
{
    if lo == hi {
        return Some(Vec::new());
    }
    let rs = split_ranges(v, lo, hi, ':');
    assert(ranges_within(rs@, 0, v.len()));
    assert(pieces(v@, rs@).subrange(0, rs.len() as int) =~= pieces(v@, rs@));
    parse_groups(v, &rs, 0, rs.len())
}

/// Parses the groups after `::`, held in `v[lo..hi]`.
fn parse_tail(v: &Vec<char>, lo: usize, hi: usize) -> (r: Option<Vec<u16>>)
    requires
        lo <= hi <= v.len(),
    ensures
        match r {
            Some(g) => tail_groups(v@.subrange(lo as int, hi as int)) == Some(g@),
            None => tail_groups(v@.subrange(lo as int, hi as int)) is None,
        },
{
    if lo == hi {
        return Some(Vec::new());
    }
    let rs = split_ranges(v, lo, hi, ':');
    assert(ranges_within(rs@, 0, v.len()));
    parse_groups_ending_v4(v, &rs)
}

/// Eight groups: `h`, then zeros, then `t`.
fn fill_zeros(h: &Vec<u16>, t: &Vec<u16>) -> (g: Vec<u16>)
    requires
        h.len() + t.len() <= 7,
    ensures
        g@ == with_zeros(h@, t@),
        g.len() == 8,
{
    let mut g: Vec<u16> = Vec::new();
    let mut i: usize = 0;
    while i < h.len()
        invariant
            i <= h.len(),
            g@ == h@.take(i as int),
        decreases h.len() - i,
    {
        g.push(h[i]);
        assert(h@.take(i + 1) == h@.take(i as int).push(h@[i as int]));
        i = i + 1;
    }
    let zeros = 8 - h.len() - t.len();
    let mut z: usize = 0;
    while z < zeros
        invariant
            z <= zeros,
            h.len() <= 7,
            g@ == h@ + Seq::new(z as nat, |i: int| 0u16),
        decreases zeros - z,
    {
        g.push(0);
        assert(h@ + Seq::new((z + 1) as nat, |i: int| 0u16) =~= (h@ + Seq::new(z as nat, |i: int| 0u16)).push(0));
        z = z + 1;
    }
    let mut j: usize = 0;
    while j < t.len()
        invariant
            j <= t.len(),
            g@ == h@ + Seq::new(zeros as nat, |i: int| 0u16) + t@.take(j as int),
        decreases t.len() - j,
    {
        g.push(t[j]);
        assert(h@ + Seq::new(zeros as nat, |i: int| 0u16) + t@.take(j + 1) =~= (h@ + Seq::new(zeros as nat, |i: int| 0u16) + t@.take(j as int)).push(t@[j as int]));
        j = j + 1;
    }
    assert(t@.take(t.len() as int) == t@);
    g
}

/// The eight groups of `v[lo..hi]` read as an IPv6 address.
fn parse_ipv6_groups(v: &Vec<char>, lo: usize, hi: usize) -> (r: Option<Vec<u16>>)
    requires
        lo <= hi <= v.len(),
    ensures
        match r {
            Some(g) => ipv6_text(v@.subrange(lo as int, hi as int)) == Some(g@) && g.len() == 8,
            None => ipv6_text(v@.subrange(lo as int, hi as int)) is None,
        },
{
    let ghost s = v@.subrange(lo as int, hi as int);
    match find_double_colon(v, lo, hi) {
        None => {
            let rs = split_ranges(v, lo, hi, ':');
            assert(ranges_within(rs@, 0, v.len()));
            match parse_groups_ending_v4(v, &rs) {
                Some(g) => {
                    if g.len() != 8 {
                        None
                    } else {
                        Some(g)
                    }
                },
                None => None,
            }
        },
        Some(p) => {
            assert(s.take(p - lo) =~= v@.subrange(lo as int, p as int));
            assert(s.skip(p - lo + 2) =~= v@.subrange(p + 2, hi as int));
            match (parse_head(v, lo, p), parse_tail(v, p + 2, hi)) {
                (Some(h), Some(t)) => {
                    if h.len() > 7 || t.len() > 7 - h.len() {
                        None
                    } else {
                        Some(fill_zeros(&h, &t))
                    }
                },
                _ => None,
            }
        },
    }
}

/// Parses `v[lo..hi]` as `Ipv6Addr::from_str` does.
pub fn parse_ipv6(v: &Vec<char>, lo: usize, hi: usize) -> (r: Option<[u16; 8]>)
    requires
        lo <= hi <= v.len(),
    ensures
        match r {
            Some(a) => ipv6_text(v@.subrange(lo as int, hi as int)) == Some(a@),
            None => ipv6_text(v@.subrange(lo as int, hi as int)) is None,
        },
{
    match parse_ipv6_groups(v, lo, hi) {
        Some(g) => {
            let arr = [g[0], g[1], g[2], g[3], g[4], g[5], g[6], g[7]];
            assert(arr@ =~= g@);
            Some(arr)
        },
        None => None,
    }
}


// ---------------------------------------------------------------- socket addresses

/// One or more decimal digits (leading zeros allowed) whose value is at most `max`.
pub open spec fn bounded_digits(s: Seq<char>, max: int) -> bool {
    s.len() > 0 && all_digits(s) && decimal_value(s) <= max
}

/// Whether `v[lo..hi]` is one or more decimal digits of value at most `max`.
pub fn digits_within(v: &Vec<char>, lo: usize, hi: usize, max: u32) -> (r: bool)
    requires
        lo <= hi <= v.len(),
    ensures
        r == bounded_digits(v@.subrange(lo as int, hi as int), max as int),
{
    let ghost d = v@.subrange(lo as int, hi as int);
    if lo == hi {
        return false;
    }
    let cap: u64 = max as u64 + 1;
    let mut val: u64 = 0;
    let mut i = lo;
    while i < hi
        invariant
            lo <= i <= hi <= v.len(),
            d == v@.subrange(lo as int, hi as int),
            cap == max as u64 + 1,
            all_digits(d.take(i - lo)),
            decimal_value(d.take(i - lo)) >= 0,
            val == if decimal_value(d.take(i - lo)) <= cap {
                decimal_value(d.take(i - lo))
            } else {
                cap as int
            },
        decreases hi - i,
    {
        let c = v[i];
        assert(d[i - lo] == c);
        if !('0' <= c && c <= '9') {
            assert(!all_digits(d));
            return false;
        }
        assert(d.take(i - lo + 1).drop_last() == d.take(i - lo));
        assert(all_digits(d.take(i - lo + 1)));
        let digit = (c as u64) - ('0' as u64);
        if val >= cap {
            val = cap;
        } else {
            val = val * 10 + digit;
            if val > cap {
                val = cap;
            }
        }
        i = i + 1;
    }
    assert(d.take(hi - lo) == d);
    val <= max as u64
}

/// What `std::net::SocketAddr::from_str` accepts: `a.b.c.d:port`, or
/// `[ipv6]:port` with an optional `%scope` (a 32-bit decimal) before the
/// `]`; the port is a 16-bit decimal, leading zeros allowed.
pub open spec fn socket_address_text(s: Seq<char>) -> bool {
    if s.len() > 0 && s[0] == '[' {
        match first_index(s, ']') {
            None => false,
            Some(j) => {
                let inner = s.subrange(1, j as int);
                let after = s.skip((j + 1) as int);
                &&& after.len() > 0
                &&& after[0] == ':'
                &&& bounded_digits(after.drop_first(), 65535)
                &&& match first_index(inner, '%') {
                    None => ipv6_text(inner) is Some,
                    Some(k) => ipv6_text(inner.take(k as int)) is Some && bounded_digits(inner.skip((k + 1) as int), 0xffff_ffff),
                }
            },
        }
    } else {
        match first_index(s, ':') {
            None => false,
            Some(j) => ipv4_text(s.take(j as int)) is Some && bounded_digits(s.skip((j + 1) as int), 65535),
        }
    }
}

/// Whether the characters `v` form a socket address; see `socket_address_text`.
pub fn is_socket_address(v: &Vec<char>) -> (r: bool)
    ensures
        r == socket_address_text(v@),
{
    let n = v.len();
    assert(v@.subrange(0, n as int) =~= v@);
    if n > 0 && v[0] == '[' {
        let j = find_char(v, 0, n, ']');
        proof {
            lemma_first_index(v@, ']', j as int);
        }
        if j == n {
            return false;
        }
        assert(v@.skip(j + 1) =~= v@.subrange(j + 1, n as int));
        if j + 1 >= n || v[j + 1] != ':' {
            return false;
        }
        assert(v@.skip(j + 1).drop_first() =~= v@.subrange(j + 2, n as int));
        if !digits_within(v, j + 2, n, 65535) {
            return false;
        }
        let ghost inner = v@.subrange(1, j as int);
        let k = find_char(v, 1, j, '%');
        proof {
            assert forall|m: int| 0 <= m < k - 1 implies inner[m] != '%' by {
                assert(inner[m] == v@[m + 1]);
            }
            lemma_first_index(inner, '%', k - 1);
        }
        if k == j {
            match parse_ipv6(v, 1, j) {
                Some(_) => true,
                None => false,
            }
        } else {
            assert(inner[k - 1] == v@[k as int]);
            assert(inner.take(k - 1) =~= v@.subrange(1, k as int));
            assert(inner.skip(k - 1 + 1) =~= v@.subrange(k + 1, j as int));
            let ok6 = match parse_ipv6(v, 1, k) {
                Some(_) => true,
                None => false,
            };
            ok6 && digits_within(v, k + 1, j, 0xffff_ffff)
        }
    } else {
        let j = find_char(v, 0, n, ':');
        proof {
            lemma_first_index(v@, ':', j as int);
        }
        if j == n {
            return false;
        }
        assert(v@.take(j as int) =~= v@.subrange(0, j as int));
        assert(v@.skip(j + 1) =~= v@.subrange(j + 1, n as int));
        let ok4 = match parse_ipv4(v, 0, j) {
            Some(_) => true,
            None => false,
        };
        ok4 && digits_within(v, j + 1, n, 65535)
    }
}

} // verus!
