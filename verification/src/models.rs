//! The record model: record types, records, creation requests and the
//! canonical form of domain names.

use vstd::prelude::*;

use crate::text::{lower_text, same_text, to_lower, to_upper, upper_text, push_char};

verus! {

broadcast use vstd::string::group_string_axioms;

/// The DNS record types that the store can hold.
#[allow(clippy::upper_case_acronyms)]
#[derive(Clone, Copy, Debug, PartialEq, Eq, Hash, Structural)]
pub enum RecordType {
    A,
    AAAA,
    CNAME,
    MX,
    TXT,
    NS,
    SRV,
    HTTPS,
    SVCB,
}

/// The presentation name of a record type ("A", "AAAA", ...).
pub open spec fn presentation_name(t: RecordType) -> Seq<char> {
    match t {
        RecordType::A => seq!['A'],
        RecordType::AAAA => seq!['A', 'A', 'A', 'A'],
        RecordType::CNAME => seq!['C', 'N', 'A', 'M', 'E'],
        RecordType::MX => seq!['M', 'X'],
        RecordType::TXT => seq!['T', 'X', 'T'],
        RecordType::NS => seq!['N', 'S'],
        RecordType::SRV => seq!['S', 'R', 'V'],
        RecordType::HTTPS => seq!['H', 'T', 'T', 'P', 'S'],
        RecordType::SVCB => seq!['S', 'V', 'C', 'B'],
    }
}

/// The numeric TYPE value of a record type on the wire (RFC 1035, 2782, 3596, 9460).
pub open spec fn type_code(t: RecordType) -> u16 {
    match t {
        RecordType::A => 1,
        RecordType::AAAA => 28,
        RecordType::CNAME => 5,
        RecordType::MX => 15,
        RecordType::TXT => 16,
        RecordType::NS => 2,
        RecordType::SRV => 33,
        RecordType::HTTPS => 65,
        RecordType::SVCB => 64,
    }
}

/// The record type whose wire TYPE value is `code`, if the store supports it.
pub open spec fn type_of_code(code: u16) -> Option<RecordType> {
    if code == 1 {
        Some(RecordType::A)
    } else if code == 28 {
        Some(RecordType::AAAA)
    } else if code == 5 {
        Some(RecordType::CNAME)
    } else if code == 15 {
        Some(RecordType::MX)
    } else if code == 16 {
        Some(RecordType::TXT)
    } else if code == 2 {
        Some(RecordType::NS)
    } else if code == 33 {
        Some(RecordType::SRV)
    } else if code == 65 {
        Some(RecordType::HTTPS)
    } else if code == 64 {
        Some(RecordType::SVCB)
    } else {
        None
    }
}

/// The error text for a record type name that is not supported.
pub open spec fn unsupported_type_message(upper: Seq<char>) -> Seq<char> {
    "unsupported record type: "@ + upper
}

/// What parsing a record type name gives: the type whose name equals the
/// ASCII-uppercased input, or the error text naming that uppercased input.
pub open spec fn parse_type_spec(s: Seq<char>) -> Result<RecordType, Seq<char>> {
    let u = upper_text(s);
    if u == presentation_name(RecordType::A) {
        Ok(RecordType::A)
    } else if u == presentation_name(RecordType::AAAA) {
        Ok(RecordType::AAAA)
    } else if u == presentation_name(RecordType::CNAME) {
        Ok(RecordType::CNAME)
    } else if u == presentation_name(RecordType::MX) {
        Ok(RecordType::MX)
    } else if u == presentation_name(RecordType::TXT) {
        Ok(RecordType::TXT)
    } else if u == presentation_name(RecordType::NS) {
        Ok(RecordType::NS)
    } else if u == presentation_name(RecordType::SRV) {
        Ok(RecordType::SRV)
    } else if u == presentation_name(RecordType::HTTPS) {
        Ok(RecordType::HTTPS)
    } else if u == presentation_name(RecordType::SVCB) {
        Ok(RecordType::SVCB)
    } else {
        Err(unsupported_type_message(u))
    }
}

impl RecordType {
    /// The presentation name of this type.
    pub fn as_str(&self) -> (s: &'static str)
        ensures
            s@ == presentation_name(*self),
    {
        match self {
            RecordType::A => {
                proof { reveal_strlit("A"); }
                "A"
            },
            RecordType::AAAA => {
                proof { reveal_strlit("AAAA"); }
                "AAAA"
            },
            RecordType::CNAME => {
                proof { reveal_strlit("CNAME"); }
                "CNAME"
            },
            RecordType::MX => {
                proof { reveal_strlit("MX"); }
                "MX"
            },
            RecordType::TXT => {
                proof { reveal_strlit("TXT"); }
                "TXT"
            },
            RecordType::NS => {
                proof { reveal_strlit("NS"); }
                "NS"
            },
            RecordType::SRV => {
                proof { reveal_strlit("SRV"); }
                "SRV"
            },
            RecordType::HTTPS => {
                proof { reveal_strlit("HTTPS"); }
                "HTTPS"
            },
            RecordType::SVCB => {
                proof { reveal_strlit("SVCB"); }
                "SVCB"
            },
        }
    }

    /// The presentation name of this type, as an owned `String`.
    #[allow(clippy::inherent_to_string)]
    pub fn to_string(&self) -> (s: String)
        ensures
            s@ == presentation_name(*self),
    {
        String::from_str(self.as_str())
    }

    /// The wire TYPE value of this type.
    pub fn code(&self) -> (c: u16)
        ensures
            c == type_code(*self),
    {
        match self {
            RecordType::A => 1,
            RecordType::AAAA => 28,
            RecordType::CNAME => 5,
            RecordType::MX => 15,
            RecordType::TXT => 16,
            RecordType::NS => 2,
            RecordType::SRV => 33,
            RecordType::HTTPS => 65,
            RecordType::SVCB => 64,
        }
    }

    /// The supported type with wire TYPE value `code`, if any.
    pub fn from_code(code: u16) -> (t: Option<RecordType>)
        ensures
            t == type_of_code(code),
    {
        if code == 1 {
            Some(RecordType::A)
        } else if code == 28 {
            Some(RecordType::AAAA)
        } else if code == 5 {
            Some(RecordType::CNAME)
        } else if code == 15 {
            Some(RecordType::MX)
        } else if code == 16 {
            Some(RecordType::TXT)
        } else if code == 2 {
            Some(RecordType::NS)
        } else if code == 33 {
            Some(RecordType::SRV)
        } else if code == 65 {
            Some(RecordType::HTTPS)
        } else if code == 64 {
            Some(RecordType::SVCB)
        } else {
            None
        }
    }

    /// Parses a record type name, ignoring ASCII case.
    pub fn parse(s: &str) -> (r: Result<RecordType, String>)
        ensures
            match (r, parse_type_spec(s@)) {
                (Ok(t), Ok(u)) => t == u,
                (Err(m), Err(n)) => m@ == n,
                _ => false,
            },
    {
        let upper = to_upper(s);
        let u = upper.as_str();
        let all = [
            RecordType::A,
            RecordType::AAAA,
            RecordType::CNAME,
            RecordType::MX,
            RecordType::TXT,
            RecordType::NS,
            RecordType::SRV,
            RecordType::HTTPS,
            RecordType::SVCB,
        ];
        let mut i: usize = 0;
        while i < 9
            invariant
                i <= 9,
                u@ == upper_text(s@),
                all@ == seq![
                    RecordType::A,
                    RecordType::AAAA,
                    RecordType::CNAME,
                    RecordType::MX,
                    RecordType::TXT,
                    RecordType::NS,
                    RecordType::SRV,
                    RecordType::HTTPS,
                    RecordType::SVCB,
                ],
                forall|j: int| 0 <= j < i ==> u@ != presentation_name(#[trigger] all@[j]),
            decreases 9 - i,
        {
            let t = all[i];
            if same_text(u, t.as_str()) {
                assert(forall|j: int| 0 <= j < i ==> u@ != presentation_name(#[trigger] all@[j]));
                return Ok(t);
            }
            i = i + 1;
        }
        assert(u@ != presentation_name(all@[0]) && u@ != presentation_name(all@[1]) && u@ != presentation_name(all@[2])
            && u@ != presentation_name(all@[3]) && u@ != presentation_name(all@[4]) && u@ != presentation_name(all@[5])
            && u@ != presentation_name(all@[6]) && u@ != presentation_name(all@[7]) && u@ != presentation_name(all@[8]));
        let prefix = "unsupported record type: ";
        let msg = String::from_str(prefix).concat(u);
        Err(msg)
    }
}

impl std::str::FromStr for RecordType {
    type Err = String;

    /// Parses a record type name; see `RecordType::parse`.
    fn from_str(s: &str) -> (r: Result<Self, Self::Err>)
        ensures
            match (r, parse_type_spec(s@)) {
                (Ok(t), Ok(u)) => t == u,
                (Err(m), Err(n)) => m@ == n,
                _ => false,
            },
    {
        RecordType::parse(s)
    }
}

/// The canonical (fully qualified) form of a domain name: ASCII lowercase,
/// ending in a dot.
pub open spec fn canonical_name(name: Seq<char>) -> Seq<char> {
    let lower = lower_text(name);
    if lower.len() > 0 && lower.last() == '.' {
        lower
    } else {
        lower.push('.')
    }
}

/// Normalize a domain name to canonical FQDN form (lowercase, trailing dot).
pub fn normalize_name(name: &str) -> (res: String)
    ensures
        res@ == canonical_name(name@),
{
    let mut lower = to_lower(name);
    let n = lower.as_str().unicode_len();
    if n > 0 && lower.as_str().get_char(n - 1) == '.' {
        lower
    } else {
        push_char(&mut lower, '.');
        lower
    }
}

/// A DNS record held by the store.
pub struct Record {
    pub id: String,
    pub name: String,
    pub record_type: RecordType,
    pub ttl: u32,
    pub data: String,
}

/// The value of a record, with its texts as character sequences.
pub ghost struct RecordView {
    pub id: Seq<char>,
    pub name: Seq<char>,
    pub record_type: RecordType,
    pub ttl: u32,
    pub data: Seq<char>,
}

impl View for Record {
    type V = RecordView;

    open spec fn view(&self) -> RecordView {
        RecordView {
            id: self.id@,
            name: self.name@,
            record_type: self.record_type,
            ttl: self.ttl,
            data: self.data@,
        }
    }
}

impl Clone for Record {
    fn clone(&self) -> (res: Self)
        ensures
            res@ == self@,
    {
        Record {
            id: self.id.clone(),
            name: self.name.clone(),
            record_type: self.record_type,
            ttl: self.ttl,
            data: self.data.clone(),
        }
    }
}

/// A request to add a record; the store gives it an id and canonicalizes its name.
pub struct CreateRecord {
    pub name: String,
    pub record_type: RecordType,
    pub ttl: u32,
    pub data: String,
}

/// The body of the health endpoint's answer.
pub struct HealthResponse {
    pub status: &'static str,
    pub version: &'static str,
}

impl HealthResponse {
    /// The answer of a healthy server of the given version.
    pub fn healthy(version: &'static str) -> (r: HealthResponse)
        ensures
            r.status@ == "ok"@,
            r.version == version,
    {
        HealthResponse { status: "ok", version }
    }
}

} // verus!
