use bifrost_dns::client::{add_record_body, api_request, cache_path, record_path, records_path, response_outcome, Command, Outcome};

#[test]
fn records_path_filters() {
    assert_eq!(records_path(None, None), "/api/v1/records");
    assert_eq!(records_path(Some("a.test."), None), "/api/v1/records?name=a.test.");
    assert_eq!(records_path(None, Some("MX")), "/api/v1/records?type=MX");
    assert_eq!(records_path(Some("a.test."), Some("MX")), "/api/v1/records?name=a.test.&type=MX");
}

#[test]
fn record_and_cache_paths() {
    assert_eq!(record_path("abc-123"), "/api/v1/records/abc-123");
    assert_eq!(cache_path(None), "/api/v1/cache");
    assert_eq!(cache_path(Some("example.com.")), "/api/v1/cache?name=example.com.");
}

#[test]
fn add_body_is_json() {
    let b = add_record_body("example.com.", "A", 3600, "192.168.1.1");
    assert_eq!(b, r#"{"name":"example.com.","type":"A","ttl":3600,"data":"192.168.1.1"}"#);
    let v: serde_json::Value = serde_json::from_str(&b).unwrap();
    assert_eq!(v["ttl"].as_u64(), Some(3600));
    assert_eq!(add_record_body("x.", "TXT", 0, "hi"), r#"{"name":"x.","type":"TXT","ttl":0,"data":"hi"}"#);
}

#[test]
fn api_request_for_each_command() {
    let r = api_request(&Command::Add {
        name: "test.example.com".to_string(),
        rtype: "MX".to_string(),
        data: "10 mail.example.com.".to_string(),
        ttl: 3600,
    });
    assert_eq!((r.method, r.path.as_str(), r.success), ("POST", "/api/v1/records", 201));
    assert_eq!(
        r.body.as_deref(),
        Some(r#"{"name":"test.example.com","type":"MX","ttl":3600,"data":"10 mail.example.com."}"#)
    );

    let r = api_request(&Command::List { name: None, rtype: Some("A".to_string()) });
    assert_eq!((r.method, r.path.as_str(), r.body, r.success), ("GET", "/api/v1/records?type=A", None, 200));

    let r = api_request(&Command::Delete { id: Some("a1b2".to_string()), name: Some("x.".to_string()), rtype: None });
    assert_eq!((r.method, r.path.as_str(), r.success), ("DELETE", "/api/v1/records/a1b2", 204));

    let r = api_request(&Command::Delete { id: None, name: Some("x.".to_string()), rtype: Some("A".to_string()) });
    assert_eq!((r.method, r.path.as_str(), r.success), ("DELETE", "/api/v1/records?name=x.&type=A", 204));

    let r = api_request(&Command::Health);
    assert_eq!((r.method, r.path.as_str(), r.body, r.success), ("GET", "/health", None, 200));

    let r = api_request(&Command::Flush { name: None });
    assert_eq!((r.method, r.path.as_str(), r.success), ("DELETE", "/api/v1/cache", 200));
    let r = api_request(&Command::Flush { name: Some("example.com.".to_string()) });
    assert_eq!(r.path, "/api/v1/cache?name=example.com.");
}

#[test]
fn response_outcome_per_command_and_status() {
    let add = Command::Add { name: "a.".to_string(), rtype: "A".to_string(), data: "1.2.3.4".to_string(), ttl: 60 };
    assert_eq!(response_outcome(&add, 201), Outcome::Succeeded);
    assert_eq!(response_outcome(&add, 200), Outcome::Failed);
    let by_id = Command::Delete { id: Some("x".to_string()), name: None, rtype: None };
    assert_eq!(response_outcome(&by_id, 204), Outcome::Succeeded);
    assert_eq!(response_outcome(&by_id, 404), Outcome::NotFound);
    let by_filter = Command::Delete { id: None, name: Some("a.".to_string()), rtype: None };
    assert_eq!(response_outcome(&by_filter, 404), Outcome::Failed);
    assert_eq!(response_outcome(&Command::Health, 200), Outcome::Succeeded);
    assert_eq!(response_outcome(&Command::Health, 503), Outcome::Failed);
    assert_eq!(response_outcome(&Command::List { name: None, rtype: None }, 200), Outcome::Succeeded);
    assert_eq!(response_outcome(&Command::Flush { name: None }, 200), Outcome::Succeeded);
}
