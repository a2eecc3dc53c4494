//! Domain-name, service-parameter-key and base64 readings, done by the DNS
//! protocol crate and the encoding crate.

use std::str::FromStr;

use vstd::prelude::*;

use crate::svcb::{key_text, SvcParamKey};
use hickory_proto::rr::rdata::svcb::SvcParamKey as HickoryKey;

verus! {

/// What `hickory_proto::rr::Name::from_str` makes of a text: `None` where it
/// rejects the text, else whether the name is the root (`Name::is_root`).
pub uninterp spec fn parsed_name_root(text: Seq<char>) -> Option<bool>;

/// What `data_encoding::BASE64.decode` makes of a text's bytes: `None` where
/// it rejects them, else the decoded bytes.
pub uninterp spec fn base64_decoded(text: Seq<char>) -> Option<Seq<u8>>;

/// Parses `text` as a domain name (`hickory_proto::rr::Name::from_str`) and
/// tells whether it is the root name. The result is named by `parsed_name_root`.
#[verifier::external_body]
pub(crate) fn check_name(text: &str) -> (r: Option<bool>)
    ensures
        r == parsed_name_root(text@),
{
    hickory_proto::rr::Name::from_str(text).ok().map(|n| n.is_root())
}

/// Decodes `text` as padded standard base64 (`data_encoding::BASE64.decode`).
/// The result is named by `base64_decoded`.
#[verifier::external_body]
pub(crate) fn decode_base64(text: &str) -> (r: Option<Vec<u8>>)
    ensures
        match r {
            Some(b) => base64_decoded(text@) == Some(b@),
            None => base64_decoded(text@) is None,
        },
{
    data_encoding::BASE64.decode(text.as_bytes()).ok()
}

/// Reads a service parameter key (`hickory_proto::rr::rdata::svcb::SvcParamKey::from_str`).
/// Its source maps the seven key names and `key65535` to their keys, reads
/// any other `key` + `u16::from_str` text as `Key(n)`, and rejects the rest:
/// that is `key_text`, which the contract states.
#[verifier::external_body]
pub(crate) fn svc_param_key(text: &str) -> (r: Option<SvcParamKey>)
    ensures
        r == key_text(text@),
{
    match HickoryKey::from_str(text).ok()? {
        HickoryKey::Mandatory => Some(SvcParamKey::Mandatory),
        HickoryKey::Alpn => Some(SvcParamKey::Alpn),
        HickoryKey::NoDefaultAlpn => Some(SvcParamKey::NoDefaultAlpn),
        HickoryKey::Port => Some(SvcParamKey::Port),
        HickoryKey::Ipv4Hint => Some(SvcParamKey::Ipv4Hint),
        HickoryKey::EchConfigList => Some(SvcParamKey::EchConfigList),
        HickoryKey::Ipv6Hint => Some(SvcParamKey::Ipv6Hint),
        HickoryKey::Key(n) => Some(SvcParamKey::Key(n)),
        HickoryKey::Key65535 => Some(SvcParamKey::Key65535),
        HickoryKey::Unknown(n) => Some(SvcParamKey::Unknown(n)),
    }
}

} // verus!
