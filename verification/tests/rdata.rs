use bifrost_dns::models::{Record, RecordType};
use bifrost_dns::rdata::{build_rdata, build_record, RData};
use bifrost_dns::svcb::{parse_svc_param, RDataError, SvcParamKey, SvcParamValue, Svcb};

fn record(rtype: RecordType, data: &str) -> Record {
    Record {
        id: "test".into(),
        name: "example.com.".into(),
        record_type: rtype,
        ttl: 300,
        data: data.into(),
    }
}

fn https_svcb(data: &str) -> Svcb {
    match build_rdata(&record(RecordType::HTTPS, data)).expect("rdata should parse") {
        RData::HTTPS(h) => h,
        _ => panic!("expected HTTPS rdata"),
    }
}

fn find_param(svcb: &Svcb, key: SvcParamKey) -> &SvcParamValue {
    svcb.params
        .iter()
        .find(|(k, _)| *k == key)
        .map(|(_, v)| v)
        .unwrap_or_else(|| panic!("param {key:?} not found"))
}

#[test]
fn svcb_parses_priority_and_target() {
    let svcb = https_svcb("1 svc.example.com. alpn=h2");
    assert_eq!(svcb.priority, 1);
    assert_eq!(svcb.target, "svc.example.com.");
}

#[test]
fn svcb_parses_alpn_list() {
    let svcb = https_svcb("1 . alpn=h2,h3");
    match find_param(&svcb, SvcParamKey::Alpn) {
        SvcParamValue::Alpn(ids) => assert_eq!(ids, &vec!["h2".to_string(), "h3".to_string()]),
        _ => panic!("expected alpn"),
    }
}

#[test]
fn svcb_parses_ech_base64() {
    // "aGVsbG8=" is base64 for b"hello"
    let svcb = https_svcb("1 . ech=aGVsbG8=");
    match find_param(&svcb, SvcParamKey::EchConfigList) {
        SvcParamValue::EchConfigList(bytes) => assert_eq!(bytes, &b"hello".to_vec()),
        _ => panic!("expected ech"),
    }
}

#[test]
fn svcb_parses_port() {
    let svcb = https_svcb("1 . port=8002");
    match find_param(&svcb, SvcParamKey::Port) {
        SvcParamValue::Port(p) => assert_eq!(*p, 8002),
        _ => panic!("expected port"),
    }
}

#[test]
fn svcb_parses_ipv4_and_ipv6_hints() {
    let svcb = https_svcb("1 . ipv4hint=192.0.2.1,192.0.2.2 ipv6hint=2001:db8::1");
    match find_param(&svcb, SvcParamKey::Ipv4Hint) {
        SvcParamValue::Ipv4Hint(ips) => {
            assert_eq!(ips.len(), 2);
            assert_eq!(ips[0], [192, 0, 2, 1]);
            assert_eq!(ips[1], [192, 0, 2, 2]);
        }
        _ => panic!("expected ipv4hint"),
    }
    match find_param(&svcb, SvcParamKey::Ipv6Hint) {
        SvcParamValue::Ipv6Hint(ips) => {
            assert_eq!(ips.len(), 1);
            assert_eq!(ips[0], [0x2001, 0xdb8, 0, 0, 0, 0, 0, 1]);
        }
        _ => panic!("expected ipv6hint"),
    }
}

#[test]
fn svcb_parses_mandatory_and_no_default_alpn() {
    let svcb = https_svcb("2 . alpn=h2 no-default-alpn mandatory=alpn");
    match find_param(&svcb, SvcParamKey::Mandatory) {
        SvcParamValue::Mandatory(keys) => assert!(matches!(keys.as_slice(), [SvcParamKey::Alpn])),
        _ => panic!("expected mandatory"),
    }
    assert!(matches!(
        find_param(&svcb, SvcParamKey::NoDefaultAlpn),
        SvcParamValue::NoDefaultAlpn
    ));
}

#[test]
fn svcb_parses_unknown_key_as_wire_bytes() {
    let svcb = https_svcb("1 . key65333=ex1");
    assert!(svcb
        .params
        .iter()
        .any(|(k, v)| matches!(k, SvcParamKey::Key(65333))
            && matches!(v, SvcParamValue::Unknown(u) if *u == b"ex1".to_vec())));
}

#[test]
fn svcb_builds_svcb_record_type() {
    match build_rdata(&record(RecordType::SVCB, "1 . alpn=h2")).expect("should parse") {
        RData::SVCB(_) => {}
        _ => panic!("expected SVCB rdata"),
    }
}

#[test]
fn svcb_rejects_duplicate_keys() {
    let err = build_rdata(&record(RecordType::HTTPS, "1 . alpn=h2 alpn=h3"))
        .err()
        .expect("duplicate keys must be rejected");
    assert!(err.message().contains("duplicate"), "unexpected error: {}", err.message());
}

#[test]
fn svcb_rejects_alias_mode_with_params() {
    let err = build_rdata(&record(RecordType::HTTPS, "0 foo.example.com. alpn=h2"))
        .err()
        .expect("alias mode with params must be rejected");
    assert!(err.message().contains("alias"), "unexpected error: {}", err.message());
}

#[test]
fn svcb_rejects_alias_mode_with_root_target() {
    let err = build_rdata(&record(RecordType::HTTPS, "0 ."))
        .err()
        .expect("alias mode with root target must be rejected");
    assert!(err.message().contains("alias"), "unexpected error: {}", err.message());
}

#[test]
fn svcb_rejects_bad_priority() {
    assert!(build_rdata(&record(RecordType::HTTPS, "x . alpn=h2")).is_err());
}

#[test]
fn svcb_rejects_bad_base64_ech() {
    assert!(build_rdata(&record(RecordType::HTTPS, "1 . ech=!!!")).is_err());
}

#[test]
fn svcb_alias_mode_with_real_target_is_accepted() {
    let svcb = https_svcb("0 pool.example.com.");
    assert_eq!(svcb.priority, 0);
    assert!(svcb.params.is_empty());
}

#[test]
fn svcb_errors_name_their_cause() {
    let cases = [
        ("1", RDataError::SvcbFormat),
        ("70000 .", RDataError::InvalidSvcPriority),
        ("1 . bogus=1", RDataError::InvalidSvcParamKey),
        ("1 . port=abc", RDataError::InvalidPort),
        ("1 . port", RDataError::MissingValue(SvcParamKey::Port)),
        ("1 . no-default-alpn=x", RDataError::NoDefaultAlpnValue),
        ("1 . mandatory=alpn,nope", RDataError::InvalidMandatoryKey),
        ("1 . ipv4hint=1.2.3", RDataError::InvalidIpv4Hint),
        ("1 . ipv6hint=::1::", RDataError::InvalidIpv6Hint),
        ("1 . alpn=h2 bad=1 alpn=h3", RDataError::InvalidSvcParamKey),
    ];
    for (data, want) in cases {
        assert_eq!(build_rdata(&record(RecordType::SVCB, data)).err(), Some(want), "{data}");
    }
}

#[test]
fn svcb_value_quotes_are_removed() {
    let svcb = https_svcb("1 . alpn=\"h2,h3\"");
    match find_param(&svcb, SvcParamKey::Alpn) {
        SvcParamValue::Alpn(ids) => assert_eq!(ids, &vec!["h2".to_string(), "h3".to_string()]),
        _ => panic!("expected alpn"),
    }
}

#[test]
fn svc_param_parses_single_values() {
    assert!(matches!(parse_svc_param(SvcParamKey::Port, Some("+53")), Ok(SvcParamValue::Port(53))));
    assert_eq!(
        parse_svc_param(SvcParamKey::Alpn, None).err(),
        Some(RDataError::MissingValue(SvcParamKey::Alpn))
    );
    match parse_svc_param(SvcParamKey::Key65535, None) {
        Ok(SvcParamValue::Unknown(b)) => assert!(b.is_empty()),
        _ => panic!("expected unknown"),
    }
    match parse_svc_param(SvcParamKey::Key(7), Some("é")) {
        Ok(SvcParamValue::Unknown(b)) => assert_eq!(b, "é".as_bytes().to_vec()),
        _ => panic!("expected unknown"),
    }
}

#[test]
fn rdata_parses_each_record_type() {
    assert!(matches!(build_rdata(&record(RecordType::A, "192.168.1.1")), Ok(RData::A([192, 168, 1, 1]))));
    assert!(matches!(
        build_rdata(&record(RecordType::AAAA, "::1")),
        Ok(RData::AAAA([0, 0, 0, 0, 0, 0, 0, 1]))
    ));
    assert!(matches!(
        build_rdata(&record(RecordType::AAAA, "::ffff:1.2.3.4")),
        Ok(RData::AAAA([0, 0, 0, 0, 0, 0xffff, 0x0102, 0x0304]))
    ));
    match build_rdata(&record(RecordType::CNAME, "target.example.com.")) {
        Ok(RData::CNAME(n)) => assert_eq!(n, "target.example.com."),
        _ => panic!("expected CNAME"),
    }
    match build_rdata(&record(RecordType::NS, "ns1.example.com.")) {
        Ok(RData::NS(n)) => assert_eq!(n, "ns1.example.com."),
        _ => panic!("expected NS"),
    }
    match build_rdata(&record(RecordType::MX, "10 mail.example.com.")) {
        Ok(RData::MX { preference, exchange }) => {
            assert_eq!(preference, 10);
            assert_eq!(exchange, "mail.example.com.");
        }
        _ => panic!("expected MX"),
    }
    match build_rdata(&record(RecordType::TXT, "v=spf1 -all")) {
        Ok(RData::TXT(t)) => assert_eq!(t, "v=spf1 -all"),
        _ => panic!("expected TXT"),
    }
    match build_rdata(&record(RecordType::SRV, "10 5 5060 sip.example.com.")) {
        Ok(RData::SRV { priority, weight, port, target }) => {
            assert_eq!((priority, weight, port), (10, 5, 5060));
            assert_eq!(target, "sip.example.com.");
        }
        _ => panic!("expected SRV"),
    }
}

#[test]
fn rdata_errors_for_each_record_type() {
    let cases = [
        (RecordType::A, "::1", RDataError::ExpectedIpv4),
        (RecordType::A, "256.1.1.1", RDataError::InvalidA),
        (RecordType::A, "01.1.1.1", RDataError::InvalidA),
        (RecordType::AAAA, "10.0.0.1", RDataError::ExpectedIpv6),
        (RecordType::AAAA, "1:2:3:4:5:6:7:8:9", RDataError::InvalidAaaa),
        (RecordType::MX, "10", RDataError::MxFormat),
        (RecordType::MX, "x mail.example.com.", RDataError::InvalidMxPriority),
        (RecordType::SRV, "10 5 5060", RDataError::SrvFormat),
        (RecordType::SRV, "10 x 5060 sip.example.com.", RDataError::InvalidSrvWeight),
        (RecordType::SRV, "10 5 99999 sip.example.com.", RDataError::InvalidSrvPort),
    ];
    for (t, data, want) in cases {
        assert_eq!(build_rdata(&record(t, data)).err(), Some(want), "{data}");
    }
}

#[test]
fn build_record_keeps_name_and_ttl() {
    let a = build_record(&record(RecordType::A, "10.0.0.1")).ok().expect("builds");
    assert_eq!(a.name, "example.com.");
    assert_eq!(a.ttl, 300);
    assert!(matches!(a.rdata, RData::A([10, 0, 0, 1])));
}
