//! Decoding and re-encoding of DNS messages, done by the DNS protocol crate.

use std::str::FromStr;

use vstd::prelude::*;

use crate::rdata::{Answer, AnswerView, RData};
use crate::svcb::{SvcParamKey, SvcParamValue, Svcb};
use hickory_proto::op::{Message, MessageType, OpCode, ResponseCode};
use hickory_proto::rr::rdata::svcb::{self as hsvcb, SvcParamKey as HKey, SvcParamValue as HValue, SVCB};
use hickory_proto::rr::rdata::{self as hrdata};
use hickory_proto::rr::{Name, RData as HRData, Record};

verus! {

/// The parts of a decoded DNS message that this library reads.
pub struct MessageInfo {
    pub id: u16,
    pub op_code: u8,
    pub recursion_desired: bool,
    /// The first query: its name in text form, and its TYPE value.
    pub query: Option<(String, u16)>,
    /// The TTL of each answer record, in order.
    pub answer_ttls: Vec<u32>,
}

/// The read parts of a message as a mathematical value.
pub ghost struct MessageView {
    pub id: u16,
    pub op_code: u8,
    pub recursion_desired: bool,
    pub query: Option<(Seq<char>, u16)>,
    pub answer_ttls: Seq<u32>,
}

impl View for MessageInfo {
    type V = MessageView;

    open spec fn view(&self) -> MessageView {
        MessageView {
            id: self.id,
            op_code: self.op_code,
            recursion_desired: self.recursion_desired,
            query: match &self.query {
                Some(q) => Some((q.0@, q.1)),
                None => None,
            },
            answer_ttls: self.answer_ttls@,
        }
    }
}

/// What `hickory_proto::op::Message::from_vec` makes of the bytes: `None`
/// where it cannot decode them, else the message's id, opcode, RD flag,
/// first query (name as its `Display` text, TYPE value) and answer TTLs.
pub uninterp spec fn decoded_message(raw: Seq<u8>) -> Option<MessageView>;

/// What re-encoding a message with its TC (truncation) flag set to `tc`
/// gives (`Message::from_vec`, then `Message::to_vec`): `None` where either
/// fails.
pub uninterp spec fn reencoded(raw: Seq<u8>, tc: bool) -> Option<Seq<u8>>;

/// Decodes a DNS message (`hickory_proto::op::Message::from_vec`) and takes
/// out the parts that this library reads. The result is named by `decoded_message`.
#[verifier::external_body]
pub(crate) fn decode_message(raw: &[u8]) -> (r: Option<MessageInfo>)
    ensures
        match r {
            Some(m) => decoded_message(raw@) == Some(m@),
            None => decoded_message(raw@) is None,
        },
{
    hickory_proto::op::Message::from_vec(raw).ok().map(|m| MessageInfo {
        id: m.metadata.id,
        op_code: u8::from(m.metadata.op_code),
        recursion_desired: m.metadata.recursion_desired,
        query: m.queries.first().map(|q| (q.name().to_string(), u16::from(q.query_type()))),
        answer_ttls: m.answers.iter().map(|a| a.ttl).collect(),
    })
}

/// Re-encodes a message with its TC flag set to `tc` (`Message::from_vec`,
/// then `Message::to_vec`). The result is named by `reencoded`.
#[verifier::external_body]
pub(crate) fn reencode_with_tc(raw: &[u8], tc: bool) -> (r: Option<Vec<u8>>)
    ensures
        match r {
            Some(b) => reencoded(raw@, tc) == Some(b@),
            None => reencoded(raw@, tc) is None,
        },
{
    let mut m = hickory_proto::op::Message::from_vec(raw).ok()?;
    m.metadata.truncation = tc;
    m.to_vec().ok()
}

// ---------------------------------------------------------------- responses

/// The DNS protocol crate's record data, built from the library's.
#[verifier::external_type_specification]
#[verifier::external_body]
pub struct ExHickoryRData(HRData);

/// The DNS protocol crate's SVCB data, built from the library's.
#[verifier::external_type_specification]
#[verifier::external_body]
pub struct ExHickorySvcb(SVCB);

/// The DNS protocol crate's service parameter keys.
#[verifier::external_type_specification]
#[verifier::external_body]
pub struct ExHickoryKey(HKey);

/// The DNS protocol crate's domain names.
#[verifier::external_type_specification]
#[verifier::external_body]
pub struct ExHickoryName(Name);

/// The DNS protocol crate's A data.
#[verifier::external_type_specification]
#[verifier::external_body]
pub struct ExHickoryA(hrdata::A);

/// The DNS protocol crate's AAAA data.
#[verifier::external_type_specification]
#[verifier::external_body]
pub struct ExHickoryAaaa(hrdata::AAAA);

/// The DNS protocol crate's service parameter values.
#[verifier::external_type_specification]
#[verifier::external_body]
pub struct ExHickoryValue(HValue);

/// What encoding a response message gives (`Message::new`, then
/// `Message::to_vec`): with id `id`, opcode `op_code`, the RD flag, the
/// response code `rcode`, the queries of the request `raw` (decoded by
/// `Message::from_vec`) and the answer records `answers`; `None` where the
/// request or an answer's name does not decode, or the encoding fails.
pub uninterp spec fn encoded_message(
    raw: Seq<u8>,
    id: u16,
    op_code: u8,
    recursion_desired: bool,
    rcode: u16,
    answers: Seq<AnswerView>,
) -> Option<Seq<u8>>;

/// Encodes a response message (`hickory_proto::op::Message::to_vec`) that
/// echoes the queries of the request `raw`. The result is named by
/// `encoded_message`. Of the header, the contract states what the crate's
/// header encoding (`op/header.rs`, `Header::emit`) shows: the id in the
/// first two bytes, big-endian; the QR bit and the RD bit of byte 2; the
/// low four bits of the response code in byte 3.
#[verifier::external_body]
pub(crate) fn encode_message(
    raw: &[u8],
    id: u16,
    op_code: u8,
    recursion_desired: bool,
    rcode: u16,
    answers: &Vec<Answer>,
) -> (r: Option<Vec<u8>>)
    ensures
        match r {
            Some(b) => encoded_message(raw@, id, op_code, recursion_desired, rcode, answers@.map_values(|a: Answer| a@)) == Some(b@),
            None => encoded_message(raw@, id, op_code, recursion_desired, rcode, answers@.map_values(|a: Answer| a@)) is None,
        },
        r matches Some(b) ==> b@.len() >= 12 && b@[0] == id / 256 && b@[1] == id % 256 && b@[2] >= 128
            && (b@[2] % 2 == 1) == recursion_desired && b@[3] % 16 == rcode % 16,
{
    let request = Message::from_vec(raw).ok()?;
    let mut m = Message::new(id, MessageType::Response, OpCode::from_u8(op_code));
    m.metadata.recursion_desired = recursion_desired;
    m.metadata.response_code = <ResponseCode as From<u16>>::from(rcode);
    for q in request.queries {
        m.add_query(q);
    }
    for a in answers {
        m.add_answer(Record::from_rdata(hickory_name(&a.name)?, a.ttl, hickory_rdata(&a.rdata)?));
    }
    m.to_vec().ok()
}

/// The crate's form of record data: one variant for one, names read by
/// `Name::from_str` (`None` where one does not read).
#[verifier::external_body]
fn hickory_rdata(d: &RData) -> Option<HRData> {
    Some(match d {
        RData::A(o) => hickory_a(o),
        RData::AAAA(g) => hickory_aaaa(g),
        RData::CNAME(n) => HRData::CNAME(hrdata::CNAME(hickory_name(n)?)),
        RData::NS(n) => HRData::NS(hrdata::NS(hickory_name(n)?)),
        RData::MX { preference, exchange } => hickory_mx(*preference, exchange)?,
        RData::TXT(t) => HRData::TXT(hrdata::TXT::new(vec![t.clone()])),
        RData::SRV { priority, weight, port, target } => hickory_srv(*priority, *weight, *port, target)?,
        RData::HTTPS(s) => HRData::HTTPS(hrdata::HTTPS(hickory_svcb(s)?)),
        RData::SVCB(s) => HRData::SVCB(hickory_svcb(s)?),
    })
}

/// The crate's form of MX data (`MX::new`), the exchange read by `Name::from_str`.
#[verifier::external_body]
fn hickory_mx(preference: u16, exchange: &String) -> Option<HRData> {
    Some(HRData::MX(hrdata::MX::new(preference, hickory_name(exchange)?)))
}

/// The crate's form of SRV data (`SRV::new`), the target read by `Name::from_str`.
#[verifier::external_body]
fn hickory_srv(priority: u16, weight: u16, port: u16, target: &String) -> Option<HRData> {
    Some(HRData::SRV(hrdata::SRV::new(priority, weight, port, hickory_name(target)?)))
}

/// A domain name read by `Name::from_str` (`None` where it does not read).
#[verifier::external_body]
fn hickory_name(text: &String) -> Option<Name> {
    Name::from_str(text).ok()
}

/// The crate's form of A data (`A::new`).
#[verifier::external_body]
fn hickory_a(o: &[u8; 4]) -> HRData {
    HRData::A(hrdata::A::new(o[0], o[1], o[2], o[3]))
}

/// The crate's form of AAAA data (`AAAA::new`).
#[verifier::external_body]
fn hickory_aaaa(g: &[u16; 8]) -> HRData {
    HRData::AAAA(hrdata::AAAA::new(g[0], g[1], g[2], g[3], g[4], g[5], g[6], g[7]))
}

/// The crate's form of SVCB data (`SVCB::new`), the target read by
/// `Name::from_str` (`None` where it does not read).
#[verifier::external_body]
fn hickory_svcb(s: &Svcb) -> Option<SVCB> {
    let params = s.params.iter().map(|(k, v)| (hickory_key(k), hickory_value(v))).collect();
    Some(SVCB::new(s.priority, hickory_name(&s.target)?, params))
}

/// The crate's form of a service parameter key, one variant for one.
#[verifier::external_body]
fn hickory_key(k: &SvcParamKey) -> HKey {
    match *k {
        SvcParamKey::Mandatory => HKey::Mandatory,
        SvcParamKey::Alpn => HKey::Alpn,
        SvcParamKey::NoDefaultAlpn => HKey::NoDefaultAlpn,
        SvcParamKey::Port => HKey::Port,
        SvcParamKey::Ipv4Hint => HKey::Ipv4Hint,
        SvcParamKey::EchConfigList => HKey::EchConfigList,
        SvcParamKey::Ipv6Hint => HKey::Ipv6Hint,
        SvcParamKey::Key(n) => HKey::Key(n),
        SvcParamKey::Key65535 => HKey::Key65535,
        SvcParamKey::Unknown(n) => HKey::Unknown(n),
    }
}

/// The crate's form of a service parameter value, one variant for one.
#[verifier::external_body]
fn hickory_value(v: &SvcParamValue) -> HValue {
    match v {
        SvcParamValue::Mandatory(ks) => HValue::Mandatory(hsvcb::Mandatory(ks.iter().map(hickory_key).collect())),
        SvcParamValue::Alpn(ids) => HValue::Alpn(hsvcb::Alpn(ids.clone())),
        SvcParamValue::NoDefaultAlpn => HValue::NoDefaultAlpn,
        SvcParamValue::Port(p) => HValue::Port(*p),
        SvcParamValue::Ipv4Hint(ips) => HValue::Ipv4Hint(hsvcb::IpHint(ips.iter().map(hickory_v4).collect())),
        SvcParamValue::Ipv6Hint(ips) => HValue::Ipv6Hint(hsvcb::IpHint(ips.iter().map(hickory_v6).collect())),
        SvcParamValue::EchConfigList(b) => HValue::EchConfigList(hsvcb::EchConfigList(b.clone())),
        SvcParamValue::Unknown(b) => HValue::Unknown(hsvcb::Unknown(b.clone())),
    }
}

/// An IPv4 hint address (`A::new`).
#[verifier::external_body]
fn hickory_v4(o: &[u8; 4]) -> hrdata::A {
    hrdata::A::new(o[0], o[1], o[2], o[3])
}

/// An IPv6 hint address (`AAAA::new`).
#[verifier::external_body]
fn hickory_v6(g: &[u16; 8]) -> hrdata::AAAA {
    hrdata::AAAA::new(g[0], g[1], g[2], g[3], g[4], g[5], g[6], g[7])
}

} // verus!
