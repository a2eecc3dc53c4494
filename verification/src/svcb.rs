//! SVCB/HTTPS record data (RFC 9460) in presentation format:
//! "SvcPriority TargetName SvcParams...".

use vstd::prelude::*;

use crate::names::{base64_decoded, check_name, decode_base64, parsed_name_root, svc_param_key};
use crate::parse::{
    find_char, ipv4_text, ipv6_text, parse_ipv4, parse_ipv6, parse_u16, piece, pieces,
    ranges_within, split_on, split_ranges, u16_text, word_ranges, words,
};
use crate::text::{chars_of, text_of};

verus! {

broadcast use vstd::string::group_string_axioms;

/// A service parameter key (RFC 9460 section 14.3.2).
#[derive(Clone, Copy, Debug, PartialEq, Eq, Structural)]
pub enum SvcParamKey {
    Mandatory,
    Alpn,
    NoDefaultAlpn,
    Port,
    Ipv4Hint,
    EchConfigList,
    Ipv6Hint,
    /// A key written `keyNNNNN`.
    Key(u16),
    /// The reserved ("invalid") key 65535.
    Key65535,
    Unknown(u16),
}

/// Why record data could not be read.
#[derive(Clone, Copy, Debug, PartialEq, Eq, Structural)]
pub enum RDataError {
    InvalidName,
    InvalidA,
    ExpectedIpv4,
    InvalidAaaa,
    ExpectedIpv6,
    InvalidCname,
    InvalidNs,
    MxFormat,
    InvalidMxPriority,
    InvalidMxExchange,
    SrvFormat,
    InvalidSrvPriority,
    InvalidSrvWeight,
    InvalidSrvPort,
    InvalidSrvTarget,
    SvcbFormat,
    InvalidSvcPriority,
    InvalidTargetName,
    InvalidSvcParamKey,
    DuplicateSvcParamKey,
    AliasModeWithParams,
    AliasModeRootTarget,
    MissingValue(SvcParamKey),
    InvalidMandatoryKey,
    NoDefaultAlpnValue,
    InvalidPort,
    InvalidIpv4Hint,
    InvalidIpv6Hint,
    InvalidEch,
}

/// The text of an error.
pub open spec fn error_text(e: RDataError) -> Seq<char> {
    match e {
        RDataError::InvalidName => "invalid name"@,
        RDataError::InvalidA => "invalid A data"@,
        RDataError::ExpectedIpv4 => "expected IPv4 for A record"@,
        RDataError::InvalidAaaa => "invalid AAAA data"@,
        RDataError::ExpectedIpv6 => "expected IPv6 for AAAA record"@,
        RDataError::InvalidCname => "invalid CNAME"@,
        RDataError::InvalidNs => "invalid NS"@,
        RDataError::MxFormat => "MX data must be '<priority> <host>'"@,
        RDataError::InvalidMxPriority => "invalid MX priority"@,
        RDataError::InvalidMxExchange => "invalid MX exchange"@,
        RDataError::SrvFormat => "SRV data must be '<priority> <weight> <port> <target>'"@,
        RDataError::InvalidSrvPriority => "invalid SRV priority"@,
        RDataError::InvalidSrvWeight => "invalid SRV weight"@,
        RDataError::InvalidSrvPort => "invalid SRV port"@,
        RDataError::InvalidSrvTarget => "invalid SRV target"@,
        RDataError::SvcbFormat => "HTTPS/SVCB data must be '<priority> <target> [params...]'"@,
        RDataError::InvalidSvcPriority => "invalid SvcPriority"@,
        RDataError::InvalidTargetName => "invalid target name"@,
        RDataError::InvalidSvcParamKey => "invalid SvcParamKey"@,
        RDataError::DuplicateSvcParamKey => "duplicate SvcParamKey (keys MUST NOT be repeated)"@,
        RDataError::AliasModeWithParams => "SvcPriority 0 (alias mode) must not include SvcParams"@,
        RDataError::AliasModeRootTarget => "SvcPriority 0 (alias mode) must not use root ('.') as TargetName"@,
        RDataError::InvalidMandatoryKey => "invalid mandatory key"@,
        RDataError::NoDefaultAlpnValue => "no-default-alpn must not have a value"@,
        RDataError::InvalidPort => "invalid port"@,
        RDataError::InvalidIpv4Hint => "invalid ipv4hint address"@,
        RDataError::InvalidIpv6Hint => "invalid ipv6hint address"@,
        RDataError::InvalidEch => "invalid base64 in ech"@,
        RDataError::MissingValue(SvcParamKey::Mandatory) => "mandatory requires a comma-separated key list"@,
        RDataError::MissingValue(SvcParamKey::Alpn) => "alpn requires a comma-separated protocol list"@,
        RDataError::MissingValue(SvcParamKey::Port) => "port requires a numeric value"@,
        RDataError::MissingValue(SvcParamKey::Ipv4Hint) => "ipv4hint requires a comma-separated address list"@,
        RDataError::MissingValue(SvcParamKey::Ipv6Hint) => "ipv6hint requires a comma-separated address list"@,
        RDataError::MissingValue(SvcParamKey::EchConfigList) => "ech requires a base64-encoded ECHConfigList"@,
        RDataError::MissingValue(_) => "SvcParam requires a value"@,
    }
}

impl RDataError {
    /// The text of this error.
    pub fn message(&self) -> (m: &'static str)
        ensures
            m@ == error_text(*self),
    {
        match self {
            RDataError::InvalidName => "invalid name",
            RDataError::InvalidA => "invalid A data",
            RDataError::ExpectedIpv4 => "expected IPv4 for A record",
            RDataError::InvalidAaaa => "invalid AAAA data",
            RDataError::ExpectedIpv6 => "expected IPv6 for AAAA record",
            RDataError::InvalidCname => "invalid CNAME",
            RDataError::InvalidNs => "invalid NS",
            RDataError::MxFormat => "MX data must be '<priority> <host>'",
            RDataError::InvalidMxPriority => "invalid MX priority",
            RDataError::InvalidMxExchange => "invalid MX exchange",
            RDataError::SrvFormat => "SRV data must be '<priority> <weight> <port> <target>'",
            RDataError::InvalidSrvPriority => "invalid SRV priority",
            RDataError::InvalidSrvWeight => "invalid SRV weight",
            RDataError::InvalidSrvPort => "invalid SRV port",
            RDataError::InvalidSrvTarget => "invalid SRV target",
            RDataError::SvcbFormat => "HTTPS/SVCB data must be '<priority> <target> [params...]'",
            RDataError::InvalidSvcPriority => "invalid SvcPriority",
            RDataError::InvalidTargetName => "invalid target name",
            RDataError::InvalidSvcParamKey => "invalid SvcParamKey",
            RDataError::DuplicateSvcParamKey => "duplicate SvcParamKey (keys MUST NOT be repeated)",
            RDataError::AliasModeWithParams => "SvcPriority 0 (alias mode) must not include SvcParams",
            RDataError::AliasModeRootTarget => "SvcPriority 0 (alias mode) must not use root ('.') as TargetName",
            RDataError::InvalidMandatoryKey => "invalid mandatory key",
            RDataError::NoDefaultAlpnValue => "no-default-alpn must not have a value",
            RDataError::InvalidPort => "invalid port",
            RDataError::InvalidIpv4Hint => "invalid ipv4hint address",
            RDataError::InvalidIpv6Hint => "invalid ipv6hint address",
            RDataError::InvalidEch => "invalid base64 in ech",
            RDataError::MissingValue(SvcParamKey::Mandatory) => "mandatory requires a comma-separated key list",
            RDataError::MissingValue(SvcParamKey::Alpn) => "alpn requires a comma-separated protocol list",
            RDataError::MissingValue(SvcParamKey::Port) => "port requires a numeric value",
            RDataError::MissingValue(SvcParamKey::Ipv4Hint) => "ipv4hint requires a comma-separated address list",
            RDataError::MissingValue(SvcParamKey::Ipv6Hint) => "ipv6hint requires a comma-separated address list",
            RDataError::MissingValue(SvcParamKey::EchConfigList) => "ech requires a base64-encoded ECHConfigList",
            RDataError::MissingValue(_) => "SvcParam requires a value",
        }
    }
}

/// The value of a service parameter.
pub enum SvcParamValue {
    Mandatory(Vec<SvcParamKey>),
    Alpn(Vec<String>),
    NoDefaultAlpn,
    Port(u16),
    Ipv4Hint(Vec<[u8; 4]>),
    Ipv6Hint(Vec<[u16; 8]>),
    EchConfigList(Vec<u8>),
    /// The raw value bytes of a key without a defined format.
    Unknown(Vec<u8>),
}

/// A parameter value as a mathematical value.
pub ghost enum ParamValue {
    Mandatory(Seq<SvcParamKey>),
    Alpn(Seq<Seq<char>>),
    NoDefaultAlpn,
    Port(u16),
    Ipv4Hint(Seq<Seq<u8>>),
    Ipv6Hint(Seq<Seq<u16>>),
    EchConfigList(Seq<u8>),
    Unknown(Seq<u8>),
}

impl View for SvcParamValue {
    type V = ParamValue;

    open spec fn view(&self) -> ParamValue {
        match self {
            SvcParamValue::Mandatory(k) => ParamValue::Mandatory(k@),
            SvcParamValue::Alpn(ids) => ParamValue::Alpn(ids@.map_values(|s: String| s@)),
            SvcParamValue::NoDefaultAlpn => ParamValue::NoDefaultAlpn,
            SvcParamValue::Port(p) => ParamValue::Port(*p),
            SvcParamValue::Ipv4Hint(a) => ParamValue::Ipv4Hint(a@.map_values(|x: [u8; 4]| x@)),
            SvcParamValue::Ipv6Hint(a) => ParamValue::Ipv6Hint(a@.map_values(|x: [u16; 8]| x@)),
            SvcParamValue::EchConfigList(b) => ParamValue::EchConfigList(b@),
            SvcParamValue::Unknown(b) => ParamValue::Unknown(b@),
        }
    }
}

/// SVCB record data.
pub struct Svcb {
    pub priority: u16,
    /// The target name, as written.
    pub target: String,
    pub params: Vec<(SvcParamKey, SvcParamValue)>,
}

/// SVCB data as a mathematical value.
pub ghost struct SvcbView {
    pub priority: u16,
    pub target: Seq<char>,
    pub params: Seq<(SvcParamKey, ParamValue)>,
}

impl View for Svcb {
    type V = SvcbView;

    open spec fn view(&self) -> SvcbView {
        SvcbView {
            priority: self.priority,
            target: self.target@,
            params: self.params@.map_values(|p: (SvcParamKey, SvcParamValue)| (p.0, p.1@)),
        }
    }
}

// ---------------------------------------------------------------- specification

/// The key that a key text names (`SvcParamKey::from_str` of the DNS
/// protocol crate): the registered names, `key65535`, or `key` followed by a
/// 16-bit number.
pub open spec fn key_text(s: Seq<char>) -> Option<SvcParamKey> {
    if s == "mandatory"@ {
        Some(SvcParamKey::Mandatory)
    } else if s == "alpn"@ {
        Some(SvcParamKey::Alpn)
    } else if s == "no-default-alpn"@ {
        Some(SvcParamKey::NoDefaultAlpn)
    } else if s == "port"@ {
        Some(SvcParamKey::Port)
    } else if s == "ipv4hint"@ {
        Some(SvcParamKey::Ipv4Hint)
    } else if s == "ech"@ {
        Some(SvcParamKey::EchConfigList)
    } else if s == "ipv6hint"@ {
        Some(SvcParamKey::Ipv6Hint)
    } else if s == "key65535"@ {
        Some(SvcParamKey::Key65535)
    } else if s.len() >= 3 && s.take(3) == "key"@ {
        match u16_text(s.skip(3)) {
            Some(n) => Some(SvcParamKey::Key(n)),
            None => None,
        }
    } else {
        None
    }
}

/// A value without one pair of enclosing double quotes.
pub open spec fn unquoted(v: Seq<char>) -> Seq<char> {
    if v.len() >= 2 && v[0] == '"' && v.last() == '"' {
        v.subrange(1, v.len() - 1)
    } else {
        v
    }
}

/// A parameter token split at its first `=`: the key text, and the
/// unquoted value where there is one.
pub open spec fn key_and_value(t: Seq<char>) -> (Seq<char>, Option<Seq<char>>) {
    match crate::parse::first_index(t, '=') {
        Some(i) => (t.take(i as int), Some(unquoted(t.skip((i + 1) as int)))),
        None => (t, None),
    }
}

/// The value a parameter's text gives for its key.
pub open spec fn param_value(key: SvcParamKey, value: Option<Seq<char>>) -> Result<ParamValue, RDataError> {
    match key {
        SvcParamKey::Mandatory => match value {
            None => Err(RDataError::MissingValue(key)),
            Some(v) => {
                let parts = split_on(v, ',');
                if forall|i: int| 0 <= i < parts.len() ==> (#[trigger] key_text(parts[i])) is Some {
                    Ok(ParamValue::Mandatory(parts.map_values(|p: Seq<char>| key_text(p)->0)))
                } else {
                    Err(RDataError::InvalidMandatoryKey)
                }
            },
        },
        SvcParamKey::Alpn => match value {
            None => Err(RDataError::MissingValue(key)),
            Some(v) => Ok(ParamValue::Alpn(split_on(v, ','))),
        },
        SvcParamKey::NoDefaultAlpn => match value {
            Some(v) => if v.len() > 0 {
                Err(RDataError::NoDefaultAlpnValue)
            } else {
                Ok(ParamValue::NoDefaultAlpn)
            },
            None => Ok(ParamValue::NoDefaultAlpn),
        },
        SvcParamKey::Port => match value {
            None => Err(RDataError::MissingValue(key)),
            Some(v) => match u16_text(v) {
                Some(p) => Ok(ParamValue::Port(p)),
                None => Err(RDataError::InvalidPort),
            },
        },
        SvcParamKey::Ipv4Hint => match value {
            None => Err(RDataError::MissingValue(key)),
            Some(v) => {
                let parts = split_on(v, ',');
                if forall|i: int| 0 <= i < parts.len() ==> (#[trigger] ipv4_text(parts[i])) is Some {
                    Ok(ParamValue::Ipv4Hint(parts.map_values(|p: Seq<char>| ipv4_text(p)->0)))
                } else {
                    Err(RDataError::InvalidIpv4Hint)
                }
            },
        },
        SvcParamKey::Ipv6Hint => match value {
            None => Err(RDataError::MissingValue(key)),
            Some(v) => {
                let parts = split_on(v, ',');
                if forall|i: int| 0 <= i < parts.len() ==> (#[trigger] ipv6_text(parts[i])) is Some {
                    Ok(ParamValue::Ipv6Hint(parts.map_values(|p: Seq<char>| ipv6_text(p)->0)))
                } else {
                    Err(RDataError::InvalidIpv6Hint)
                }
            },
        },
        SvcParamKey::EchConfigList => match value {
            None => Err(RDataError::MissingValue(key)),
            Some(v) => match base64_decoded(v) {
                Some(b) => Ok(ParamValue::EchConfigList(b)),
                None => Err(RDataError::InvalidEch),
            },
        },
        _ => Ok(
            ParamValue::Unknown(
                vstd::utf8::encode_utf8(
                    match value {
                        Some(v) => v,
                        None => Seq::empty(),
                    },
                ),
            ),
        ),
    }
}

/// Whether a key already occurs among parameters.
pub open spec fn has_key(ps: Seq<(SvcParamKey, ParamValue)>, k: SvcParamKey) -> bool {
    exists|i: int| 0 <= i < ps.len() && (#[trigger] ps[i]).0 == k
}

/// One parameter token, read after the parameters `prev`.
pub open spec fn param_text(t: Seq<char>, prev: Seq<(SvcParamKey, ParamValue)>) -> Result<(SvcParamKey, ParamValue), RDataError> {
    let (k, v) = key_and_value(t);
    match key_text(k) {
        None => Err(RDataError::InvalidSvcParamKey),
        Some(key) => if has_key(prev, key) {
            Err(RDataError::DuplicateSvcParamKey)
        } else {
            match param_value(key, v) {
                Ok(value) => Ok((key, value)),
                Err(e) => Err(e),
            }
        },
    }
}

/// The parameter tokens, read in order; the first one that fails decides the error.
pub open spec fn params_text(ts: Seq<Seq<char>>) -> Result<Seq<(SvcParamKey, ParamValue)>, RDataError>
    decreases ts.len(),
{
    if ts.len() == 0 {
        Ok(Seq::empty())
    } else {
        match params_text(ts.drop_last()) {
            Err(e) => Err(e),
            Ok(prev) => match param_text(ts.last(), prev) {
                Err(e) => Err(e),
                Ok(p) => Ok(prev.push(p)),
            },
        }
    }
}

/// SVCB data in presentation format: priority, target name, then the
/// parameters; in alias mode (priority 0) no parameters and no root target.
pub open spec fn svcb_text(data: Seq<char>) -> Result<SvcbView, RDataError> {
    let ts = words(data);
    if ts.len() < 2 {
        Err(RDataError::SvcbFormat)
    } else {
        match u16_text(ts[0]) {
            None => Err(RDataError::InvalidSvcPriority),
            Some(priority) => match parsed_name_root(ts[1]) {
                None => Err(RDataError::InvalidTargetName),
                Some(root) => match params_text(ts.skip(2)) {
                    Err(e) => Err(e),
                    Ok(params) => if priority == 0 && params.len() > 0 {
                        Err(RDataError::AliasModeWithParams)
                    } else if priority == 0 && root {
                        Err(RDataError::AliasModeRootTarget)
                    } else {
                        Ok(SvcbView { priority, target: ts[1], params })
                    },
                },
            },
        }
    }
}

// ---------------------------------------------------------------- parsing

/// Reads the key text `v[lo..hi]`.
pub fn parse_key(v: &Vec<char>, lo: usize, hi: usize) -> (r: Option<SvcParamKey>)
    requires
        lo <= hi <= v.len(),
    ensures
        r == key_text(v@.subrange(lo as int, hi as int)),
{
    let t = text_of(v, lo, hi);
    svc_param_key(t.as_str())
}

/// The piece of `v` an optional range names.
pub open spec fn opt_piece(v: Seq<char>, r: Option<(usize, usize)>) -> Option<Seq<char>> {
    match r {
        Some(r) => Some(v.subrange(r.0 as int, r.1 as int)),
        None => None,
    }
}

/// Whether an optional range lies within `v`.
pub open spec fn opt_within(v: Seq<char>, r: Option<(usize, usize)>) -> bool {
    match r {
        Some(r) => r.0 <= r.1 <= v.len(),
        None => true,
    }
}

/// Reads the comma-separated key list `v[lo..hi]` of `mandatory`.
fn parse_key_list(v: &Vec<char>, lo: usize, hi: usize) -> (r: Option<Vec<SvcParamKey>>)
    requires
        lo <= hi <= v.len(),
    ensures
        ({
            let parts = split_on(v@.subrange(lo as int, hi as int), ',');
            match r {
                Some(k) => (forall|i: int| 0 <= i < parts.len() ==> (#[trigger] key_text(parts[i])) is Some)
                    && k@ == parts.map_values(|p: Seq<char>| key_text(p)->0),
                None => !(forall|i: int| 0 <= i < parts.len() ==> (#[trigger] key_text(parts[i])) is Some),
            }
        }),
{
    let rs = split_ranges(v, lo, hi, ',');
    let ghost parts = pieces(v@, rs@);
    let mut out: Vec<SvcParamKey> = Vec::new();
    let mut i: usize = 0;
    while i < rs.len()
        invariant
            i <= rs.len(),
            hi <= v.len(),
            ranges_within(rs@, lo, hi),
            parts == pieces(v@, rs@),
            parts == split_on(v@.subrange(lo as int, hi as int), ','),
            out.len() == i,
            forall|j: int| 0 <= j < i ==> key_text(parts[j]) == Some(#[trigger] out@[j]),
        decreases rs.len() - i,
    {
        let (a, b) = rs[i];
        assert(lo <= rs@[i as int].0 <= rs@[i as int].1 <= hi);
        match parse_key(v, a, b) {
            Some(k) => out.push(k),
            None => {
                assert(key_text(parts[i as int]) is None);
                return None;
            },
        }
        i = i + 1;
    }
    proof {
        assert forall|j: int| 0 <= j < parts.len() implies (#[trigger] key_text(parts[j])) is Some by {
            assert(key_text(parts[j]) == Some(out@[j]));
        }
        assert(out@ =~= parts.map_values(|p: Seq<char>| key_text(p)->0));
    }
    Some(out)
}

/// The comma-separated texts of `v[lo..hi]`.
fn text_list(v: &Vec<char>, lo: usize, hi: usize) -> (r: Vec<String>)
    requires
        lo <= hi <= v.len(),
    ensures
        r@.map_values(|s: String| s@) == split_on(v@.subrange(lo as int, hi as int), ','),
{
    let rs = split_ranges(v, lo, hi, ',');
    let ghost parts = pieces(v@, rs@);
    let mut out: Vec<String> = Vec::new();
    let mut i: usize = 0;
    while i < rs.len()
        invariant
            i <= rs.len(),
            hi <= v.len(),
            ranges_within(rs@, lo, hi),
            parts == pieces(v@, rs@),
            parts == split_on(v@.subrange(lo as int, hi as int), ','),
            out.len() == i,
            forall|j: int| 0 <= j < i ==> (#[trigger] out@[j])@ == parts[j],
        decreases rs.len() - i,
    {
        let (a, b) = rs[i];
        assert(lo <= rs@[i as int].0 <= rs@[i as int].1 <= hi);
        out.push(text_of(v, a, b));
        i = i + 1;
    }
    assert(out@.map_values(|s: String| s@) =~= parts);
    out
}

/// Reads the comma-separated IPv4 addresses `v[lo..hi]`.
fn parse_ipv4_list(v: &Vec<char>, lo: usize, hi: usize) -> (r: Option<Vec<[u8; 4]>>)
    requires
        lo <= hi <= v.len(),
    ensures
        ({
            let parts = split_on(v@.subrange(lo as int, hi as int), ',');
            match r {
                Some(a) => (forall|i: int| 0 <= i < parts.len() ==> (#[trigger] ipv4_text(parts[i])) is Some)
                    && a@.map_values(|x: [u8; 4]| x@) == parts.map_values(|p: Seq<char>| ipv4_text(p)->0),
                None => !(forall|i: int| 0 <= i < parts.len() ==> (#[trigger] ipv4_text(parts[i])) is Some),
            }
        }),
{
    let rs = split_ranges(v, lo, hi, ',');
    let ghost parts = pieces(v@, rs@);
    let mut out: Vec<[u8; 4]> = Vec::new();
    let mut i: usize = 0;
    while i < rs.len()
        invariant
            i <= rs.len(),
            hi <= v.len(),
            ranges_within(rs@, lo, hi),
            parts == pieces(v@, rs@),
            parts == split_on(v@.subrange(lo as int, hi as int), ','),
            out.len() == i,
            forall|j: int| 0 <= j < i ==> ipv4_text(parts[j]) == Some((#[trigger] out@[j])@),
        decreases rs.len() - i,
    {
        let (a, b) = rs[i];
        assert(lo <= rs@[i as int].0 <= rs@[i as int].1 <= hi);
        match parse_ipv4(v, a, b) {
            Some(x) => out.push(x),
            None => {
                assert(ipv4_text(parts[i as int]) is None);
                return None;
            },
        }
        i = i + 1;
    }
    proof {
        assert forall|j: int| 0 <= j < parts.len() implies (#[trigger] ipv4_text(parts[j])) is Some by {
            assert(ipv4_text(parts[j]) == Some(out@[j]@));
        }
        assert(out@.map_values(|x: [u8; 4]| x@) =~= parts.map_values(|p: Seq<char>| ipv4_text(p)->0));
    }
    Some(out)
}

/// Reads the comma-separated IPv6 addresses `v[lo..hi]`.
fn parse_ipv6_list(v: &Vec<char>, lo: usize, hi: usize) -> (r: Option<Vec<[u16; 8]>>)
    requires
        lo <= hi <= v.len(),
    ensures
        ({
            let parts = split_on(v@.subrange(lo as int, hi as int), ',');
            match r {
                Some(a) => (forall|i: int| 0 <= i < parts.len() ==> (#[trigger] ipv6_text(parts[i])) is Some)
                    && a@.map_values(|x: [u16; 8]| x@) == parts.map_values(|p: Seq<char>| ipv6_text(p)->0),
                None => !(forall|i: int| 0 <= i < parts.len() ==> (#[trigger] ipv6_text(parts[i])) is Some),
            }
        }),
{
    let rs = split_ranges(v, lo, hi, ',');
    let ghost parts = pieces(v@, rs@);
    let mut out: Vec<[u16; 8]> = Vec::new();
    let mut i: usize = 0;
    while i < rs.len()
        invariant
            i <= rs.len(),
            hi <= v.len(),
            ranges_within(rs@, lo, hi),
            parts == pieces(v@, rs@),
            parts == split_on(v@.subrange(lo as int, hi as int), ','),
            out.len() == i,
            forall|j: int| 0 <= j < i ==> ipv6_text(parts[j]) == Some((#[trigger] out@[j])@),
        decreases rs.len() - i,
    {
        let (a, b) = rs[i];
        assert(lo <= rs@[i as int].0 <= rs@[i as int].1 <= hi);
        match parse_ipv6(v, a, b) {
            Some(x) => out.push(x),
            None => {
                assert(ipv6_text(parts[i as int]) is None);
                return None;
            },
        }
        i = i + 1;
    }
    proof {
        assert forall|j: int| 0 <= j < parts.len() implies (#[trigger] ipv6_text(parts[j])) is Some by {
            assert(ipv6_text(parts[j]) == Some(out@[j]@));
        }
        assert(out@.map_values(|x: [u16; 8]| x@) =~= parts.map_values(|p: Seq<char>| ipv6_text(p)->0));
    }
    Some(out)
}

/// Reads the value of a parameter with key `key`, held in `v` at the range `value`.
fn parse_value_at(v: &Vec<char>, key: SvcParamKey, value: Option<(usize, usize)>) -> (r: Result<SvcParamValue, RDataError>)
    requires
        opt_within(v@, value),
    ensures
        match (r, param_value(key, opt_piece(v@, value))) {
            (Ok(x), Ok(y)) => x@ == y,
            (Err(a), Err(b)) => a == b,
            _ => false,
        },
{
    match key {
        SvcParamKey::Mandatory => match value {
            None => Err(RDataError::MissingValue(key)),
            Some((a, b)) => match parse_key_list(v, a, b) {
                Some(keys) => Ok(SvcParamValue::Mandatory(keys)),
                None => Err(RDataError::InvalidMandatoryKey),
            },
        },
        SvcParamKey::Alpn => match value {
            None => Err(RDataError::MissingValue(key)),
            Some((a, b)) => Ok(SvcParamValue::Alpn(text_list(v, a, b))),
        },
        SvcParamKey::NoDefaultAlpn => match value {
            Some((a, b)) => if b > a {
                Err(RDataError::NoDefaultAlpnValue)
            } else {
                Ok(SvcParamValue::NoDefaultAlpn)
            },
            None => Ok(SvcParamValue::NoDefaultAlpn),
        },
        SvcParamKey::Port => match value {
            None => Err(RDataError::MissingValue(key)),
            Some((a, b)) => match parse_u16(v, a, b) {
                Some(p) => Ok(SvcParamValue::Port(p)),
                None => Err(RDataError::InvalidPort),
            },
        },
        SvcParamKey::Ipv4Hint => match value {
            None => Err(RDataError::MissingValue(key)),
            Some((a, b)) => match parse_ipv4_list(v, a, b) {
                Some(ips) => Ok(SvcParamValue::Ipv4Hint(ips)),
                None => Err(RDataError::InvalidIpv4Hint),
            },
        },
        SvcParamKey::Ipv6Hint => match value {
            None => Err(RDataError::MissingValue(key)),
            Some((a, b)) => match parse_ipv6_list(v, a, b) {
                Some(ips) => Ok(SvcParamValue::Ipv6Hint(ips)),
                None => Err(RDataError::InvalidIpv6Hint),
            },
        },
        SvcParamKey::EchConfigList => match value {
            None => Err(RDataError::MissingValue(key)),
            Some((a, b)) => {
                let t = text_of(v, a, b);
                match decode_base64(t.as_str()) {
                    Some(bytes) => Ok(SvcParamValue::EchConfigList(bytes)),
                    None => Err(RDataError::InvalidEch),
                }
            },
        },
        _ => {
            let t = match value {
                Some((a, b)) => text_of(v, a, b),
                None => String::new(),
            };
            Ok(SvcParamValue::Unknown(t.as_str().as_bytes_vec()))
        },
    }
}

/// Parse a single SvcParam value in presentation format, per key.
pub fn parse_svc_param(key: SvcParamKey, value: Option<&str>) -> (r: Result<SvcParamValue, RDataError>)
    ensures
        match (r, param_value(key, match value { Some(s) => Some(s@), None => None })) {
            (Ok(x), Ok(y)) => x@ == y,
            (Err(a), Err(b)) => a == b,
            _ => false,
        },
{
    match value {
        Some(s) => {
            let v = chars_of(s);
            assert(v@.subrange(0, v.len() as int) =~= s@);
            parse_value_at(&v, key, Some((0, v.len())))
        },
        None => {
            let v: Vec<char> = Vec::new();
            parse_value_at(&v, key, None)
        },
    }
}

/// Splits the token `v[lo..hi]` at its first `=`: the end of the key text,
/// and the range of the unquoted value, if any.
fn split_token(v: &Vec<char>, lo: usize, hi: usize) -> (r: (usize, Option<(usize, usize)>))
    requires
        lo <= hi <= v.len(),
    ensures
        lo <= r.0 <= hi,
        opt_within(v@, r.1),
        key_and_value(v@.subrange(lo as int, hi as int)) == (v@.subrange(lo as int, r.0 as int), opt_piece(v@, r.1)),
{
    let ghost t = v@.subrange(lo as int, hi as int);
    let q = find_char(v, lo, hi, '=');
    proof {
        assert forall|j: int| 0 <= j < q - lo implies t[j] != '=' by {
            assert(t[j] == v@[lo + j]);
        }
        if q < hi {
            assert(t[q - lo] == v@[q as int]);
        }
        crate::parse::lemma_first_index(t, '=', q - lo);
    }
    if q == hi {
        assert(t =~= v@.subrange(lo as int, q as int));
        return (q, None);
    }
    let a = q + 1;
    let ghost w = v@.subrange(a as int, hi as int);
    assert(t.take(q - lo) =~= v@.subrange(lo as int, q as int));
    assert(t.skip(q - lo + 1) =~= w);
    if hi - a >= 2 && v[a] == '"' && v[hi - 1] == '"' {
        assert(w[0] == v@[a as int] && w.last() == v@[hi - 1]);
        assert(w.subrange(1, w.len() - 1) =~= v@.subrange(a + 1, hi - 1));
        (q, Some((a + 1, hi - 1)))
    } else {
        proof {
            if w.len() >= 2 {
                assert(w[0] == v@[a as int] && w.last() == v@[hi - 1]);
            }
        }
        (q, Some((a, hi)))
    }
}

/// The parameters' keys, as values of the specification.
pub open spec fn param_views(ps: Seq<(SvcParamKey, SvcParamValue)>) -> Seq<(SvcParamKey, ParamValue)> {
    ps.map_values(|p: (SvcParamKey, SvcParamValue)| (p.0, p.1@))
}

/// Reads the parameter token `v[lo..hi]`, after the parameters `prev`.
fn parse_param(v: &Vec<char>, lo: usize, hi: usize, prev: &Vec<(SvcParamKey, SvcParamValue)>) -> (r: Result<(SvcParamKey, SvcParamValue), RDataError>)
    requires
        lo <= hi <= v.len(),
    ensures
        match (r, param_text(v@.subrange(lo as int, hi as int), param_views(prev@))) {
            (Ok(x), Ok(y)) => x.0 == y.0 && x.1@ == y.1,
            (Err(a), Err(b)) => a == b,
            _ => false,
        },
{
    let (k_end, value) = split_token(v, lo, hi);
    let key = match parse_key(v, lo, k_end) {
        Some(k) => k,
        None => {
            return Err(RDataError::InvalidSvcParamKey);
        },
    };
    let ghost pv = param_views(prev@);
    let ghost kv = key_and_value(v@.subrange(lo as int, hi as int));
    let mut i: usize = 0;
    while i < prev.len()
        invariant
            i <= prev.len(),
            pv == param_views(prev@),
            kv == key_and_value(v@.subrange(lo as int, hi as int)),
            key_text(kv.0) == Some(key),
            forall|j: int| 0 <= j < i ==> (#[trigger] pv[j]).0 != key,
        decreases prev.len() - i,
    {
        if prev[i].0 == key {
            assert(pv[i as int].0 == key);
            assert(has_key(pv, key));
            return Err(RDataError::DuplicateSvcParamKey);
        }
        i = i + 1;
    }
    assert(!has_key(pv, key));
    match parse_value_at(v, key, value) {
        Ok(x) => Ok((key, x)),
        Err(e) => Err(e),
    }
}

/// Once a prefix of the parameter words fails to read, the whole does,
/// with the same error.
pub proof fn lemma_params_error_persists(ts: Seq<Seq<char>>, n: int)
    requires
        0 <= n <= ts.len(),
        params_text(ts.take(n)) is Err,
    ensures
        params_text(ts) == params_text(ts.take(n)),
    decreases ts.len(),
{
    if ts.len() == n {
        assert(ts.take(n) =~= ts);
    } else {
        assert(ts.drop_last().take(n) =~= ts.take(n));
        lemma_params_error_persists(ts.drop_last(), n);
    }
}

/// Parse an RFC 9460 presentation-format RDATA string
/// ("SvcPriority TargetName SvcParams...") into an SVCB.
pub fn parse_svcb(data: &str) -> (r: Result<Svcb, RDataError>)
    ensures
        match (r, svcb_text(data@)) {
            (Ok(x), Ok(y)) => x@ == y,
            (Err(a), Err(b)) => a == b,
            _ => false,
        },
{
    let v = chars_of(data);
    assert(v@.subrange(0, v.len() as int) =~= data@);
    let rs = word_ranges(&v, 0, v.len());
    let ghost ts = pieces(v@, rs@);
    if rs.len() < 2 {
        return Err(RDataError::SvcbFormat);
    }
    let (p0, p1) = rs[0];
    assert(0 <= rs@[0].0 <= rs@[0].1 <= v.len());
    let priority = match parse_u16(&v, p0, p1) {
        Some(p) => p,
        None => {
            return Err(RDataError::InvalidSvcPriority);
        },
    };
    let (t0, t1) = rs[1];
    assert(0 <= rs@[1].0 <= rs@[1].1 <= v.len());
    let target = text_of(&v, t0, t1);
    let root = match check_name(target.as_str()) {
        Some(r) => r,
        None => {
            return Err(RDataError::InvalidTargetName);
        },
    };
    let ghost tail = ts.skip(2);
    let mut params: Vec<(SvcParamKey, SvcParamValue)> = Vec::new();
    assert(param_views(params@) =~= Seq::<(SvcParamKey, ParamValue)>::empty());
    assert(tail.take(0) =~= Seq::<Seq<char>>::empty());
    let mut i: usize = 2;
    while i < rs.len()
        invariant
            2 <= i <= rs.len(),
            ranges_within(rs@, 0, v.len()),
            ts == pieces(v@, rs@),
            ts == words(data@),
            ts.len() >= 2,
            u16_text(ts[0]) == Some(priority),
            parsed_name_root(ts[1]) == Some(root),
            target@ == ts[1],
            tail == ts.skip(2),
            params_text(tail.take(i - 2)) == Ok::<Seq<(SvcParamKey, ParamValue)>, RDataError>(param_views(params@)),
        decreases rs.len() - i,
    {
        let (a, b) = rs[i];
        assert(0 <= rs@[i as int].0 <= rs@[i as int].1 <= v.len());
        assert(tail.take(i - 1).drop_last() =~= tail.take(i - 2));
        assert(tail.take(i - 1).last() == v@.subrange(a as int, b as int));
        match parse_param(&v, a, b, &params) {
            Ok(p) => {
                let ghost before = param_views(params@);
                let ghost pview = (p.0, p.1@);
                params.push(p);
                assert(param_views(params@) =~= before.push(pview));
            },
            Err(e) => {
                proof {
                    assert(params_text(tail.take(i - 1)) == Err::<Seq<(SvcParamKey, ParamValue)>, RDataError>(e));
                    lemma_params_error_persists(tail, i - 1);
                }
                return Err(e);
            },
        }
        i = i + 1;
    }
    assert(tail.take(i - 2) =~= tail);
    if priority == 0 {
        if params.len() > 0 {
            return Err(RDataError::AliasModeWithParams);
        }
        if root {
            return Err(RDataError::AliasModeRootTarget);
        }
    }
    Ok(Svcb { priority, target, params })
}

} // verus!
