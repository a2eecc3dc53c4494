use bifrost_dns::models::{normalize_name, RecordType};
use hickory_proto::rr::RecordType as HickoryRecordType;

#[test]
fn record_type_parses_https_case_insensitively() {
    assert_eq!("HTTPS".parse::<RecordType>(), Ok(RecordType::HTTPS));
    assert_eq!("https".parse::<RecordType>(), Ok(RecordType::HTTPS));
}

#[test]
fn record_type_parses_svcb_case_insensitively() {
    assert_eq!("SVCB".parse::<RecordType>(), Ok(RecordType::SVCB));
    assert_eq!("svcb".parse::<RecordType>(), Ok(RecordType::SVCB));
}

#[test]
fn record_type_displays_https_and_svcb() {
    assert_eq!(RecordType::HTTPS.to_string(), "HTTPS");
    assert_eq!(RecordType::SVCB.to_string(), "SVCB");
}

#[test]
fn record_type_rejects_unknown_type() {
    assert!("HTTPSRR".parse::<RecordType>().is_err());
}

#[test]
fn record_type_error_names_the_uppercased_input() {
    assert_eq!(
        "ptr".parse::<RecordType>(),
        Err("unsupported record type: PTR".to_string())
    );
}

#[test]
fn record_type_parses_every_supported_name() {
    let all = [
        ("a", RecordType::A),
        ("Aaaa", RecordType::AAAA),
        ("cname", RecordType::CNAME),
        ("mx", RecordType::MX),
        ("txt", RecordType::TXT),
        ("ns", RecordType::NS),
        ("srv", RecordType::SRV),
        ("https", RecordType::HTTPS),
        ("svcb", RecordType::SVCB),
    ];
    for (text, t) in all {
        assert_eq!(RecordType::parse(text), Ok(t));
        assert_eq!(RecordType::parse(&t.to_string()), Ok(t));
    }
}

#[test]
fn record_type_codes_round_trip() {
    assert_eq!(RecordType::A.code(), 1);
    assert_eq!(RecordType::AAAA.code(), 28);
    assert_eq!(RecordType::SRV.code(), 33);
    assert_eq!(RecordType::from_code(15), Some(RecordType::MX));
    assert_eq!(RecordType::from_code(12), None);
    for t in [RecordType::A, RecordType::NS, RecordType::HTTPS, RecordType::SVCB] {
        assert_eq!(RecordType::from_code(t.code()), Some(t));
    }
}

#[test]
fn svcb_maps_to_hickory_types() {
    assert_eq!(HickoryRecordType::from(RecordType::HTTPS.code()), HickoryRecordType::HTTPS);
    assert_eq!(HickoryRecordType::from(RecordType::SVCB.code()), HickoryRecordType::SVCB);
    assert_eq!(HickoryRecordType::from(RecordType::AAAA.code()), HickoryRecordType::AAAA);
}

#[test]
fn normalize_name_lowercases_and_adds_dot() {
    assert_eq!(normalize_name("Example.COM"), "example.com.");
    assert_eq!(normalize_name("example.com."), "example.com.");
    assert_eq!(normalize_name(""), ".");
    assert_eq!(normalize_name("ÄB"), "Äb.");
}
