use bifrost_dns::cache::SharedCache;
use bifrost_dns::cache::DnsCache;
use bifrost_dns::dns::{
    begin_query, begin_query_at, finish_query, finish_query_at, patch_response_id, relay_next, relay_start,
    response_bytes, tcp_frame, udp_response, QueryStep, RelayStep, Reply, ResponseCode,
};
use bifrost_dns::models::Record as StoredRecord;
use bifrost_dns::rdata::{build_record, Answer};
use hickory_proto::rr::rdata::svcb::{Alpn, EchConfigList, SvcParamKey as HKey, SvcParamValue as HValue};
use bifrost_dns::store::RecordStore;
use bifrost_dns::models::{CreateRecord, RecordType};
use bifrost_dns::rdata::RData;
use bifrost_dns::store::SharedStore;
use hickory_proto::op::{Message, MessageType, OpCode, Query};
use hickory_proto::rr::{Name, RecordType as HickoryRecordType};
use std::str::FromStr;

fn request(id: u16, name: &str, t: HickoryRecordType) -> Vec<u8> {
    let mut msg = Message::new(id, MessageType::Query, OpCode::Query);
    msg.metadata.recursion_desired = true;
    msg.add_query(Query::query(Name::from_str(name).unwrap(), t));
    msg.to_vec().unwrap()
}

fn store_with_a() -> SharedStore {
    let s = SharedStore::new();
    s.add(CreateRecord {
        name: "test.example.com".into(),
        record_type: RecordType::A,
        ttl: 3600,
        data: "192.168.1.1".into(),
    });
    s
}

#[test]
fn patch_response_id_rewrites_first_two_bytes() {
    assert_eq!(patch_response_id(&[0, 0, 9], 0x1234), Some(vec![0x12, 0x34, 9]));
    assert_eq!(patch_response_id(&[1], 5), None);
}

#[test]
fn local_record_answers_query() {
    let store = store_with_a();
    let cache = SharedCache::new(300);
    match begin_query(&request(77, "TEST.example.com.", HickoryRecordType::A), &store, false, &cache) {
        QueryStep::Done(Some(Reply::Message { id, recursion_desired, echo_queries, code, answers, .. })) => {
            assert_eq!(id, 77);
            assert!(recursion_desired);
            assert!(echo_queries);
            assert_eq!(code, ResponseCode::NoError);
            assert_eq!(answers.len(), 1);
            assert_eq!(answers[0].ttl, 3600);
            assert!(matches!(answers[0].rdata, RData::A([192, 168, 1, 1])));
        }
        _ => panic!("expected a local answer"),
    }
}

#[test]
fn unknown_name_gets_nxdomain_and_unknown_type_notimp() {
    let store = store_with_a();
    let cache = SharedCache::new(300);
    match begin_query(&request(1, "nope.example.com.", HickoryRecordType::A), &store, false, &cache) {
        QueryStep::Done(Some(Reply::Message { code, answers, .. })) => {
            assert_eq!(code, ResponseCode::NXDomain);
            assert!(answers.is_empty());
        }
        _ => panic!("expected NXDOMAIN"),
    }
    match begin_query(&request(1, "test.example.com.", HickoryRecordType::PTR), &store, false, &cache) {
        QueryStep::Done(Some(Reply::Message { code, .. })) => assert_eq!(code, ResponseCode::NotImp),
        _ => panic!("expected NotImp"),
    }
}

#[test]
fn garbage_gets_no_reply_and_no_query_gets_formerr() {
    let store = SharedStore::new();
    let cache = SharedCache::new(300);
    assert!(matches!(begin_query(&[1, 2, 3], &store, true, &cache), QueryStep::Done(None)));
    let empty = Message::new(9, MessageType::Query, OpCode::Query).to_vec().unwrap();
    match begin_query(&empty, &store, true, &cache) {
        QueryStep::Done(Some(Reply::Message { id, code, echo_queries, .. })) => {
            assert_eq!(id, 9);
            assert_eq!(code, ResponseCode::FormErr);
            assert!(!echo_queries);
        }
        _ => panic!("expected FormErr"),
    }
}

#[test]
fn fallback_forwards_then_caches() {
    let store = SharedStore::new();
    let cache = SharedCache::new(300);
    let raw = request(42, "real.example.org.", HickoryRecordType::A);
    let req = match begin_query(&raw, &store, true, &cache) {
        QueryStep::Forward(req) => req,
        _ => panic!("expected a forward"),
    };
    let mut upstream = Message::new(999, MessageType::Response, OpCode::Query);
    upstream.add_query(Query::query(Name::from_str("real.example.org.").unwrap(), HickoryRecordType::A));
    let upstream = upstream.to_vec().unwrap();
    match finish_query(&req, Some(upstream.clone()), &cache) {
        Some(Reply::Raw(b)) => {
            assert_eq!(&b[..2], &[0, 42]);
            assert_eq!(&b[2..], &upstream[2..]);
        }
        _ => panic!("expected the upstream response"),
    }
    // a second query is answered from the cache, with its own id
    match begin_query(&request(43, "real.example.org.", HickoryRecordType::A), &store, true, &cache) {
        QueryStep::Done(Some(Reply::Raw(b))) => assert_eq!(&b[..2], &[0, 43]),
        _ => panic!("expected a cached answer"),
    }
    // no upstream answer: NXDOMAIN
    match finish_query(&req, None, &cache) {
        Some(Reply::Message { code, .. }) => assert_eq!(code, ResponseCode::NXDomain),
        _ => panic!("expected NXDOMAIN"),
    }
}

#[test]
fn udp_response_truncates_large_messages() {
    let small = vec![0u8; 100];
    assert_eq!(udp_response(small.clone()), Some(small));
    let mut msg = Message::new(5, MessageType::Response, OpCode::Query);
    let name = Name::from_str("example.com.").unwrap();
    for _ in 0..20 {
        msg.add_answer(hickory_proto::rr::Record::from_rdata(
            name.clone(),
            60,
            hickory_proto::rr::RData::TXT(hickory_proto::rr::rdata::TXT::new(vec!["x".repeat(40)])),
        ));
    }
    let big = msg.to_vec().unwrap();
    assert!(big.len() > 512);
    let out = udp_response(big.clone()).expect("sent");
    assert_eq!(out.len(), 512);
    assert_eq!(&out[..], &big[..512]);
}

#[test]
fn tcp_frame_prefixes_length() {
    assert_eq!(tcp_frame(&[9, 8, 7]), vec![0, 3, 9, 8, 7]);
    let long = vec![1u8; 300];
    let framed = tcp_frame(&long);
    assert_eq!(&framed[..2], &[1, 44]);
    assert_eq!(framed.len(), 302);
}

#[test]
fn response_codes_have_their_rcode_values() {
    assert_eq!(ResponseCode::NoError.code(), 0);
    assert_eq!(ResponseCode::FormErr.code(), 1);
    assert_eq!(ResponseCode::NXDomain.code(), 3);
    assert_eq!(ResponseCode::NotImp.code(), 4);
}

#[test]
fn query_steps_on_a_store_and_a_cache_at_given_times() {
    let mut store = RecordStore::new();
    store.add(CreateRecord { name: "mock.test".into(), record_type: RecordType::A, ttl: 60, data: "10.0.0.1".into() });
    let mut cache = DnsCache::new(300);
    // a local record answers; the cache is not read
    match begin_query_at(&request(1, "mock.test.", HickoryRecordType::A), &store, true, &mut cache, 0) {
        QueryStep::Done(Some(Reply::Message { code, answers, .. })) => {
            assert_eq!(code, ResponseCode::NoError);
            assert_eq!(answers.len(), 1);
        }
        _ => panic!("expected a local answer"),
    }
    // a miss is relayed; the upstream answer is stored at time 5 s
    let raw = request(7, "other.test.", HickoryRecordType::A);
    let req = match begin_query_at(&raw, &store, true, &mut cache, 0) {
        QueryStep::Forward(req) => req,
        _ => panic!("expected a forward"),
    };
    let mut up = Message::new(0, MessageType::Response, OpCode::Query);
    up.add_query(Query::query(Name::from_str("other.test.").unwrap(), HickoryRecordType::A));
    let up = up.to_vec().unwrap();
    assert!(matches!(finish_query_at(&req, Some(up.clone()), &mut cache, 5_000_000_000), Some(Reply::Raw(_))));
    assert_eq!(cache.stats().entries, 1);
    // no answers: cached for 30 s; served at 34 s, dropped at 35 s
    match begin_query_at(&request(8, "other.test.", HickoryRecordType::A), &store, true, &mut cache, 34_000_000_000) {
        QueryStep::Done(Some(Reply::Raw(b))) => assert_eq!(&b[..2], &[0, 8]),
        _ => panic!("expected a cached answer"),
    }
    assert!(matches!(
        begin_query_at(&request(9, "other.test.", HickoryRecordType::A), &store, true, &mut cache, 35_000_000_000),
        QueryStep::Forward(_)
    ));
    assert_eq!(cache.stats().entries, 0);
    // without fallback, a miss gets NXDOMAIN and no upstream answer stores nothing
    match begin_query_at(&raw, &store, false, &mut cache, 0) {
        QueryStep::Done(Some(Reply::Message { code, .. })) => assert_eq!(code, ResponseCode::NXDomain),
        _ => panic!("expected NXDOMAIN"),
    }
    assert!(matches!(finish_query_at(&req, None, &mut cache, 0), Some(Reply::Message { .. })));
    assert_eq!(cache.stats().entries, 0);
}

fn stored(rtype: RecordType, name: &str, data: &str) -> StoredRecord {
    StoredRecord { id: "t".into(), name: name.into(), record_type: rtype, ttl: 300, data: data.into() }
}

#[test]
fn svcb_wire_round_trip() {
    let rr = build_record(&stored(RecordType::HTTPS, "example.com.", "1 . alpn=h2,h3 ech=aGVsbG8="))
        .expect("record should build");
    let raw = request(0, "example.com.", HickoryRecordType::HTTPS);
    let reply = Reply::Message {
        id: 0,
        op_code: 0,
        recursion_desired: false,
        echo_queries: true,
        code: ResponseCode::NoError,
        answers: vec![rr],
    };
    let bytes = response_bytes(&raw, reply).expect("should encode");
    let decoded = Message::from_vec(&bytes).expect("should decode");
    match &decoded.answers[0].data {
        hickory_proto::rr::RData::HTTPS(h) => {
            assert_eq!(h.0.svc_priority, 1);
            let find = |key: HKey| h.0.svc_params.iter().find(|(k, _)| *k == key).map(|(_, v)| v.clone()).unwrap();
            assert!(matches!(
                find(HKey::Alpn),
                HValue::Alpn(Alpn(ids)) if ids == vec!["h2".to_string(), "h3".to_string()]
            ));
            assert!(matches!(
                find(HKey::EchConfigList),
                HValue::EchConfigList(EchConfigList(b)) if b == b"hello".to_vec()
            ));
        }
        other => panic!("expected HTTPS rdata after round trip, got {other:?}"),
    }
}

#[test]
fn response_bytes_header_queries_and_answers() {
    let raw = request(0x1234, "mock.test.", HickoryRecordType::A);
    let good = build_record(&stored(RecordType::A, "mock.test.", "10.0.0.1")).unwrap();
    let bad = Answer { name: "bad..name".into(), ttl: 5, rdata: bifrost_dns::rdata::RData::A([1, 2, 3, 4]) };
    let reply = Reply::Message {
        id: 0x1234,
        op_code: 0,
        recursion_desired: true,
        echo_queries: true,
        code: ResponseCode::NXDomain,
        answers: vec![bad, good],
    };
    let bytes = response_bytes(&raw, reply).expect("should encode");
    assert_eq!(&bytes[..2], &[0x12, 0x34]);
    assert_eq!(bytes[2] & 0x81, 0x81);
    assert_eq!(bytes[3] & 0x0f, 3);
    let m = Message::from_vec(&bytes).unwrap();
    assert_eq!(m.queries.len(), 1);
    assert_eq!(m.answers.len(), 1);
    assert_eq!(response_bytes(&raw, Reply::Raw(vec![9, 9])), Some(vec![9, 9]));
    assert_eq!(
        response_bytes(&[1, 2], Reply::Message {
            id: 1,
            op_code: 0,
            recursion_desired: false,
            echo_queries: false,
            code: ResponseCode::FormErr,
            answers: vec![],
        }),
        None
    );
}

#[test]
fn relay_tries_servers_in_order() {
    assert!(matches!(relay_start(0), RelayStep::Done(None)));
    assert!(matches!(relay_start(2), RelayStep::Send(0)));
    assert!(matches!(relay_next(2, 0, None), RelayStep::Send(1)));
    assert!(matches!(relay_next(2, 1, None), RelayStep::Done(None)));
    assert!(matches!(relay_next(2, 0, Some(vec![7])), RelayStep::Done(Some(ref b)) if b == &vec![7]));
}
