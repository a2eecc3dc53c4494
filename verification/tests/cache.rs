use bifrost_dns::cache::{ttl_from_answers, DnsCache, SharedCache};
use hickory_proto::op::{Message, MessageType, OpCode};
use hickory_proto::rr::{rdata, Name, RData, Record};
use std::str::FromStr;

fn response_with_ttls(ttls: &[u32]) -> Vec<u8> {
    let mut msg = Message::new(7, MessageType::Response, OpCode::Query);
    for t in ttls {
        let name = Name::from_str("example.com.").unwrap();
        msg.add_answer(Record::from_rdata(name, *t, RData::A(rdata::A::new(1, 2, 3, 4))));
    }
    msg.to_vec().unwrap()
}

#[test]
fn ttl_from_answers_rules() {
    assert_eq!(ttl_from_answers(None, 300), 30);
    assert_eq!(ttl_from_answers(None, 10), 10);
    assert_eq!(ttl_from_answers(Some(&[]), 300), 30);
    assert_eq!(ttl_from_answers(Some(&[]), 10), 10);
    assert_eq!(ttl_from_answers(Some(&[120, 60, 90]), 300), 60);
    assert_eq!(ttl_from_answers(Some(&[120, 600]), 100), 100);
}

#[test]
fn extract_ttl_reads_the_response() {
    let c = DnsCache::new(300);
    assert_eq!(c.extract_ttl(&response_with_ttls(&[100, 40])), 40);
    assert_eq!(c.extract_ttl(&response_with_ttls(&[])), 30);
    assert_eq!(c.extract_ttl(&[1, 2, 3]), 30);
}

#[test]
fn cache_entry_is_fresh_until_its_ttl() {
    let mut c = DnsCache::new(300);
    let resp = response_with_ttls(&[5]);
    c.put_at("example.com.", 1, resp.clone(), 1_000);
    assert_eq!(c.get_at("example.com.", 1, 1_000 + 4_999_999_999), Some(resp.clone()));
    assert_eq!(c.get_at("example.com.", 28, 1_000), None);
    assert_eq!(c.get_at("example.com.", 1, 1_000 + 5_000_000_000), None);
    // the expired entry was dropped
    assert_eq!(c.stats().entries, 0);
}

#[test]
fn cache_put_replaces_and_flushes() {
    let mut c = DnsCache::new(300);
    c.put_at("a.com.", 1, vec![1, 2, 3], 0);
    c.put_at("a.com.", 1, vec![4, 5], 0);
    c.put_at("a.com.", 28, vec![6], 0);
    c.put_at("b.com.", 1, vec![7, 8, 9, 10], 0);
    let st = c.stats();
    assert_eq!(st.entries, 3);
    assert_eq!(st.size_bytes, 7);
    assert_eq!(c.flush_domain("A.COM"), 2);
    assert_eq!(c.stats().entries, 1);
    assert_eq!(c.flush(), 1);
    assert_eq!(c.stats().entries, 0);
}

#[test]
fn shared_cache_round_trip() {
    let c = SharedCache::new(300);
    let resp = response_with_ttls(&[60]);
    c.put("example.com.", 1, resp.clone());
    assert_eq!(c.clone().get("example.com.", 1), Some(resp));
    assert_eq!(c.stats().entries, 1);
    assert_eq!(c.flush_domain("example.com"), 1);
    c.put("x.org.", 1, vec![0, 0]);
    assert_eq!(c.flush(), 1);
}

#[test]
fn stored_response_survives_other_operations_until_its_ttl() {
    let mut c = DnsCache::new(300);
    let resp = response_with_ttls(&[10]);
    c.put_at("keep.com.", 1, resp.clone(), 0);
    c.put_at("other.com.", 1, response_with_ttls(&[1]), 1_000_000_000);
    c.put_at("keep.com.", 28, vec![9, 9], 1_000_000_000);
    assert_eq!(c.get_at("other.com.", 1, 3_000_000_000), None);
    assert_eq!(c.flush_domain("other.com"), 0);
    assert_eq!(c.get_at("keep.com.", 1, 5_000_000_000), Some(resp.clone()));
    assert_eq!(c.get_at("keep.com.", 1, 9_999_999_999), Some(resp));
    assert_eq!(c.get_at("keep.com.", 1, 10_000_000_000), None);
}

#[test]
fn undecodable_response_ttl_is_capped() {
    let c = DnsCache::new(10);
    assert_eq!(c.extract_ttl(&[1, 2, 3]), 10);
}
