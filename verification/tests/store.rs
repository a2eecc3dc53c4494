use bifrost_dns::models::{CreateRecord, RecordType};
use bifrost_dns::store::{RecordStore, SharedStore};

fn req(name: &str, t: RecordType, data: &str) -> CreateRecord {
    CreateRecord { name: name.to_string(), record_type: t, ttl: 60, data: data.to_string() }
}

fn is_uuid_v4(id: &str) -> bool {
    let b = id.as_bytes();
    b.len() == 36
        && [8, 13, 18, 23].iter().all(|&i| b[i] == b'-')
        && b[14] == b'4'
        && matches!(b[19], b'8' | b'9' | b'a' | b'b')
        && b.iter().enumerate().all(|(i, c)| {
            [8, 13, 18, 23].contains(&i) || c.is_ascii_digit() || (b'a'..=b'f').contains(c)
        })
}

#[test]
fn store_add_canonicalizes_and_get_finds() {
    let mut s = RecordStore::new();
    let r = s.add(req("Test.Example.COM", RecordType::A, "192.168.1.1"));
    assert!(is_uuid_v4(&r.id), "{}", r.id);
    assert_eq!(r.name, "test.example.com.");
    assert_eq!(r.ttl, 60);
    let got = s.get(&r.id).expect("record is there");
    assert_eq!(got.id, r.id);
    assert_eq!(got.data, "192.168.1.1");
    assert!(s.get("nope").is_none());
}

#[test]
fn store_insert_with_same_id_replaces() {
    let mut s = RecordStore::new();
    s.insert_with_id("x".to_string(), req("a.com", RecordType::A, "1.1.1.1"));
    s.insert_with_id("x".to_string(), req("b.com", RecordType::A, "2.2.2.2"));
    let all = s.list_filtered(None, None);
    assert_eq!(all.len(), 1);
    assert_eq!(all[0].name, "b.com.");
}

#[test]
fn store_lookup_matches_name_case_insensitively_and_type() {
    let mut s = RecordStore::new();
    s.add(req("example.com", RecordType::A, "1.1.1.1"));
    s.add(req("example.com", RecordType::MX, "10 mail.example.com."));
    s.add(req("other.com", RecordType::A, "2.2.2.2"));
    let a = s.lookup("EXAMPLE.com.", RecordType::A);
    assert_eq!(a.len(), 1);
    assert_eq!(a[0].data, "1.1.1.1");
    assert_eq!(s.list_filtered(Some("example.com"), None).len(), 2);
    assert_eq!(s.list_filtered(None, Some(RecordType::A)).len(), 2);
    assert_eq!(s.list_filtered(None, None).len(), 3);
    assert!(s.lookup("example.com", RecordType::TXT).is_empty());
}

#[test]
fn store_delete_and_filtered_delete() {
    let mut s = RecordStore::new();
    let r1 = s.add(req("example.com", RecordType::A, "1.1.1.1"));
    s.add(req("example.com", RecordType::TXT, "hello"));
    s.add(req("other.com", RecordType::A, "2.2.2.2"));
    assert!(s.delete(&r1.id));
    assert!(!s.delete(&r1.id));
    assert!(s.get(&r1.id).is_none());
    s.delete_filtered(Some("Example.com"), None);
    let rest = s.list_filtered(None, None);
    assert_eq!(rest.len(), 1);
    assert_eq!(rest[0].name, "other.com.");
    s.delete_all();
    assert!(s.list_filtered(None, None).is_empty());
}

#[test]
fn shared_store_operations() {
    let s = SharedStore::new();
    let other = s.clone();
    let r = s.add(req("shared.test", RecordType::TXT, "v"));
    assert_eq!(other.get(&r.id).map(|x| x.data), Some("v".to_string()));
    assert_eq!(other.lookup("shared.test.", RecordType::TXT).len(), 1);
    assert_eq!(s.list_filtered(Some("shared.test"), Some(RecordType::TXT)).len(), 1);
    s.delete_filtered(None, Some(RecordType::A));
    assert_eq!(s.list_filtered(None, None).len(), 1);
    assert!(s.delete(&r.id));
    s.add(req("x.test", RecordType::A, "1.2.3.4"));
    s.delete_all();
    assert!(other.list_filtered(None, None).is_empty());
}
