//! Record data: the typed value of a stored record, read from its text.

use vstd::prelude::*;

use crate::models::{Record, RecordType};
use crate::names::{check_name, parsed_name_root};
use crate::parse::{
    find_space, first_space, ip_text, parse_ipv4, parse_ipv6, parse_u16,
    u16_text, word_ranges, words, IpText,
};
use crate::svcb::{parse_svcb, svcb_text, RDataError, Svcb, SvcbView};
use crate::text::{chars_of, text_of};

verus! {

broadcast use vstd::string::group_string_axioms;

/// The typed data of a record. Names are kept as written; they have been
/// checked to be domain names.
pub enum RData {
    A([u8; 4]),
    AAAA([u16; 8]),
    CNAME(String),
    NS(String),
    MX { preference: u16, exchange: String },
    TXT(String),
    SRV { priority: u16, weight: u16, port: u16, target: String },
    HTTPS(Svcb),
    SVCB(Svcb),
}

/// Record data as a mathematical value.
pub ghost enum RDataView {
    A(Seq<u8>),
    AAAA(Seq<u16>),
    CNAME(Seq<char>),
    NS(Seq<char>),
    MX(u16, Seq<char>),
    TXT(Seq<char>),
    SRV(u16, u16, u16, Seq<char>),
    HTTPS(SvcbView),
    SVCB(SvcbView),
}

impl View for RData {
    type V = RDataView;

    open spec fn view(&self) -> RDataView {
        match self {
            RData::A(a) => RDataView::A(a@),
            RData::AAAA(a) => RDataView::AAAA(a@),
            RData::CNAME(n) => RDataView::CNAME(n@),
            RData::NS(n) => RDataView::NS(n@),
            RData::MX { preference, exchange } => RDataView::MX(*preference, exchange@),
            RData::TXT(t) => RDataView::TXT(t@),
            RData::SRV { priority, weight, port, target } => RDataView::SRV(*priority, *weight, *port, target@),
            RData::HTTPS(s) => RDataView::HTTPS(s@),
            RData::SVCB(s) => RDataView::SVCB(s@),
        }
    }
}

/// What the data text of a record of type `t` reads as.
///  - A, AAAA: an IP address of the matching family.
///  - CNAME, NS: a domain name.
///  - MX: `<priority> <host>`, split at the first whitespace character.
///  - TXT: the text itself.
///  - SRV: `<priority> <weight> <port> <target>`, exactly four words.
///  - HTTPS, SVCB: SVCB presentation format.
pub open spec fn rdata_text(t: RecordType, data: Seq<char>) -> Result<RDataView, RDataError> {
    match t {
        RecordType::A => match ip_text(data) {
            IpText::V4(o) => Ok(RDataView::A(o)),
            IpText::V6(_) => Err(RDataError::ExpectedIpv4),
            IpText::Invalid => Err(RDataError::InvalidA),
        },
        RecordType::AAAA => match ip_text(data) {
            IpText::V6(g) => Ok(RDataView::AAAA(g)),
            IpText::V4(_) => Err(RDataError::ExpectedIpv6),
            IpText::Invalid => Err(RDataError::InvalidAaaa),
        },
        RecordType::CNAME => if parsed_name_root(data) is Some {
            Ok(RDataView::CNAME(data))
        } else {
            Err(RDataError::InvalidCname)
        },
        RecordType::NS => if parsed_name_root(data) is Some {
            Ok(RDataView::NS(data))
        } else {
            Err(RDataError::InvalidNs)
        },
        RecordType::MX => match first_space(data) {
            None => Err(RDataError::MxFormat),
            Some(i) => {
                let exchange = data.skip((i + 1) as int);
                match u16_text(data.take(i as int)) {
                    None => Err(RDataError::InvalidMxPriority),
                    Some(p) => if parsed_name_root(exchange) is Some {
                        Ok(RDataView::MX(p, exchange))
                    } else {
                        Err(RDataError::InvalidMxExchange)
                    },
                }
            },
        },
        RecordType::TXT => Ok(RDataView::TXT(data)),
        RecordType::SRV => {
            let w = words(data);
            if w.len() != 4 {
                Err(RDataError::SrvFormat)
            } else {
                match (u16_text(w[0]), u16_text(w[1]), u16_text(w[2])) {
                    (None, _, _) => Err(RDataError::InvalidSrvPriority),
                    (Some(_), None, _) => Err(RDataError::InvalidSrvWeight),
                    (Some(_), Some(_), None) => Err(RDataError::InvalidSrvPort),
                    (Some(p), Some(wt), Some(port)) => if parsed_name_root(w[3]) is Some {
                        Ok(RDataView::SRV(p, wt, port, w[3]))
                    } else {
                        Err(RDataError::InvalidSrvTarget)
                    },
                }
            }
        },
        RecordType::HTTPS => match svcb_text(data) {
            Ok(s) => Ok(RDataView::HTTPS(s)),
            Err(e) => Err(e),
        },
        RecordType::SVCB => match svcb_text(data) {
            Ok(s) => Ok(RDataView::SVCB(s)),
            Err(e) => Err(e),
        },
    }
}

/// Reads `v[lo..hi]` as an IP address (`IpAddr::from_str`).
fn parse_ip(v: &Vec<char>, lo: usize, hi: usize) -> (r: (Option<[u8; 4]>, Option<[u16; 8]>))
    requires
        lo <= hi <= v.len(),
    ensures
        match ip_text(v@.subrange(lo as int, hi as int)) {
            IpText::V4(o) => r.0 is Some && r.0->0@ == o,
            IpText::V6(g) => r.0 is None && r.1 is Some && r.1->0@ == g,
            IpText::Invalid => r.0 is None && r.1 is None,
        },
{
    match parse_ipv4(v, lo, hi) {
        Some(a) => (Some(a), None),
        None => (None, parse_ipv6(v, lo, hi)),
    }
}

fn rdata_mx(data: &str) -> (r: Result<RData, RDataError>)
    ensures
        match (r, rdata_text(RecordType::MX, data@)) {
            (Ok(x), Ok(y)) => x@ == y,
            (Err(a), Err(b)) => a == b,
            _ => false,
        },
{
    let v = chars_of(data);
    assert(v@.subrange(0, v.len() as int) =~= data@);
    let q = find_space(&v, 0, v.len());
    if q == v.len() {
        return Err(RDataError::MxFormat);
    }
    assert(data@.take(q as int) =~= v@.subrange(0, q as int));
    assert(data@.skip(q + 1) =~= v@.subrange(q + 1, v.len() as int));
    let preference = match parse_u16(&v, 0, q) {
        Some(p) => p,
        None => {
            return Err(RDataError::InvalidMxPriority);
        },
    };
    let exchange = text_of(&v, q + 1, v.len());
    match check_name(exchange.as_str()) {
        Some(_) => Ok(RData::MX { preference, exchange }),
        None => Err(RDataError::InvalidMxExchange),
    }
}

fn rdata_srv(data: &str) -> (r: Result<RData, RDataError>)
    ensures
        match (r, rdata_text(RecordType::SRV, data@)) {
            (Ok(x), Ok(y)) => x@ == y,
            (Err(a), Err(b)) => a == b,
            _ => false,
        },
{
    let v = chars_of(data);
    assert(v@.subrange(0, v.len() as int) =~= data@);
    let rs = word_ranges(&v, 0, v.len());
    if rs.len() != 4 {
        return Err(RDataError::SrvFormat);
    }
    assert(forall|i: int| 0 <= i < 4 ==> 0 <= (#[trigger] rs@[i]).0 <= rs@[i].1 <= v.len());
    let priority = match parse_u16(&v, rs[0].0, rs[0].1) {
        Some(p) => p,
        None => {
            return Err(RDataError::InvalidSrvPriority);
        },
    };
    let weight = match parse_u16(&v, rs[1].0, rs[1].1) {
        Some(p) => p,
        None => {
            return Err(RDataError::InvalidSrvWeight);
        },
    };
    let port = match parse_u16(&v, rs[2].0, rs[2].1) {
        Some(p) => p,
        None => {
            return Err(RDataError::InvalidSrvPort);
        },
    };
    let target = text_of(&v, rs[3].0, rs[3].1);
    match check_name(target.as_str()) {
        Some(_) => Ok(RData::SRV { priority, weight, port, target }),
        None => Err(RDataError::InvalidSrvTarget),
    }
}

/// Parse a record's data text into typed record data, by its type.
pub fn build_rdata(record: &Record) -> (r: Result<RData, RDataError>)
    ensures
        match (r, rdata_text(record.record_type, record.data@)) {
            (Ok(x), Ok(y)) => x@ == y,
            (Err(a), Err(b)) => a == b,
            _ => false,
        },
{
    let data = record.data.as_str();
    match record.record_type {
        RecordType::A => {
            let v = chars_of(data);
            assert(v@.subrange(0, v.len() as int) =~= data@);
            match parse_ip(&v, 0, v.len()) {
                (Some(a), _) => Ok(RData::A(a)),
                (None, Some(_)) => Err(RDataError::ExpectedIpv4),
                (None, None) => Err(RDataError::InvalidA),
            }
        },
        RecordType::AAAA => {
            let v = chars_of(data);
            assert(v@.subrange(0, v.len() as int) =~= data@);
            match parse_ip(&v, 0, v.len()) {
                (Some(_), _) => Err(RDataError::ExpectedIpv6),
                (None, Some(g)) => Ok(RData::AAAA(g)),
                (None, None) => Err(RDataError::InvalidAaaa),
            }
        },
        RecordType::CNAME => match check_name(data) {
            Some(_) => Ok(RData::CNAME(record.data.clone())),
            None => Err(RDataError::InvalidCname),
        },
        RecordType::NS => match check_name(data) {
            Some(_) => Ok(RData::NS(record.data.clone())),
            None => Err(RDataError::InvalidNs),
        },
        RecordType::MX => rdata_mx(data),
        RecordType::TXT => Ok(RData::TXT(record.data.clone())),
        RecordType::SRV => rdata_srv(data),
        RecordType::HTTPS => match parse_svcb(data) {
            Ok(s) => Ok(RData::HTTPS(s)),
            Err(e) => Err(e),
        },
        RecordType::SVCB => match parse_svcb(data) {
            Ok(s) => Ok(RData::SVCB(s)),
            Err(e) => Err(e),
        },
    }
}

/// A record ready for a DNS answer: owner name, TTL and typed data.
pub struct Answer {
    pub name: String,
    pub ttl: u32,
    pub rdata: RData,
}

/// An answer record as a mathematical value.
pub ghost struct AnswerView {
    pub name: Seq<char>,
    pub ttl: u32,
    pub rdata: RDataView,
}

impl View for Answer {
    type V = AnswerView;

    open spec fn view(&self) -> AnswerView {
        AnswerView { name: self.name@, ttl: self.ttl, rdata: self.rdata@ }
    }
}

/// What a stored record becomes as an answer: its name must be a domain
/// name, then its data is read by type.
pub open spec fn answer_of(r: crate::models::RecordView) -> Result<AnswerView, RDataError> {
    if parsed_name_root(r.name) is None {
        Err(RDataError::InvalidName)
    } else {
        match rdata_text(r.record_type, r.data) {
            Ok(d) => Ok(AnswerView { name: r.name, ttl: r.ttl, rdata: d }),
            Err(e) => Err(e),
        }
    }
}

/// Build an answer record from a stored record.
pub fn build_record(record: &Record) -> (r: Result<Answer, RDataError>)
    ensures
        match (r, answer_of(record@)) {
            (Ok(x), Ok(y)) => x@ == y,
            (Err(a), Err(b)) => a == b,
            _ => false,
        },
{
    if check_name(record.name.as_str()).is_none() {
        return Err(RDataError::InvalidName);
    }
    match build_rdata(record) {
        Ok(rdata) => Ok(Answer { name: record.name.clone(), ttl: record.ttl, rdata }),
        Err(e) => Err(e),
    }
}

} // verus!
