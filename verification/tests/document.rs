//! The registry document: canonical rendering and round trip.

use localstacker::codec::{empty_document, from_document, to_document};
use localstacker::config::{ConfigManager, DomainConfig};
use localstacker::error::Error;

fn record(domain: &str, port: u16, service: Option<&str>) -> DomainConfig {
    DomainConfig {
        domain: domain.to_string(),
        port,
        service: service.map(|s| s.to_string()),
        ssl_cert_path: format!("/etc/nginx/ssl/{}.pem", domain),
        ssl_key_path: format!("/etc/nginx/ssl/{}-key.pem", domain),
        nginx_config_path: format!("/etc/nginx/sites-available/{}", domain),
        created_at: "1700000000".to_string(),
        enabled: true,
    }
}

#[test]
fn empty_registry_document_round_trips() {
    let doc = empty_document();
    assert_eq!(doc, "{\"domains\":{}}");
    let parsed = from_document(&doc).expect("empty document should parse");
    assert_eq!(parsed.len(), 0);
    assert_eq!(to_document(&parsed), doc);
}

#[test]
fn one_record_document_round_trips_byte_identical() {
    let mut registry = ConfigManager::new();
    registry.add_domain(record("test.local", 3000, None)).expect("add should succeed");
    let doc = to_document(&registry);
    let parsed = from_document(&doc).expect("document should parse");
    assert_eq!(to_document(&parsed), doc);
    let found = parsed.get_domain("test.local").expect("record should exist");
    assert_eq!(found.port, 3000);
    assert_eq!(found.service, None);
    assert_eq!(found.ssl_cert_path, "/etc/nginx/ssl/test.local.pem");
    assert_eq!(found.created_at, "1700000000");
    assert!(found.enabled);
}

#[test]
fn several_records_round_trip() {
    let mut registry = ConfigManager::new();
    registry.add_domain(record("a.local", 3000, Some("svc-a"))).expect("add should succeed");
    registry.add_domain(record("b.local", 80, None)).expect("add should succeed");
    registry.add_domain(record("c.local", 65535, Some("svc c"))).expect("add should succeed");
    let doc = to_document(&registry);
    let parsed = from_document(&doc).expect("document should parse");
    assert_eq!(to_document(&parsed), doc);
    assert_eq!(parsed.len(), 3);
    assert_eq!(parsed.get_domain("a.local").unwrap().service.as_deref(), Some("svc-a"));
    assert_eq!(parsed.get_domain("b.local").unwrap().port, 80);
    assert_eq!(parsed.get_domain("c.local").unwrap().service.as_deref(), Some("svc c"));
}

#[test]
fn strings_with_quotes_and_backslashes_round_trip() {
    let mut registry = ConfigManager::new();
    let mut rec = record("test.local", 3000, Some("odd \"name\" with \\ slash"));
    rec.created_at = "then \\ now \"quoted\"".to_string();
    registry.add_domain(rec).expect("add should succeed");
    let doc = to_document(&registry);
    let parsed = from_document(&doc).expect("document should parse");
    assert_eq!(to_document(&parsed), doc);
    let found = parsed.get_domain("test.local").expect("record should exist");
    assert_eq!(found.service.as_deref(), Some("odd \"name\" with \\ slash"));
    assert_eq!(found.created_at, "then \\ now \"quoted\"");
}

#[test]
fn expected_document_text_for_known_record() {
    let mut registry = ConfigManager::new();
    registry.add_domain(record("test.local", 3000, None)).expect("add should succeed");
    let doc = to_document(&registry);
    let expected = "{\"domains\":{\"test.local\":{\"domain\":\"test.local\",\"port\":3000,\"service\":null,\"ssl_cert_path\":\"/etc/nginx/ssl/test.local.pem\",\"ssl_key_path\":\"/etc/nginx/ssl/test.local-key.pem\",\"nginx_config_path\":\"/etc/nginx/sites-available/test.local\",\"created_at\":\"1700000000\",\"enabled\":true}}}";
    assert_eq!(doc, expected);
}

#[test]
fn corrupt_documents_are_rejected() {
    assert!(matches!(from_document(""), Err(Error::Config(_))));
    assert!(matches!(from_document("{}"), Err(Error::Config(_))));
    assert!(matches!(from_document("{\"domains\":{"), Err(Error::Config(_))));
    assert!(matches!(from_document("{\"domains\":{}} trailing"), Err(Error::Config(_))));
    let truncated = "{\"domains\":{\"a.local\":{\"domain\":\"a.local\",\"port\":30";
    assert!(matches!(from_document(truncated), Err(Error::Config(_))));
}

#[test]
fn duplicate_domains_in_document_are_rejected() {
    let mut registry = ConfigManager::new();
    registry.add_domain(record("a.local", 3000, None)).expect("add should succeed");
    let doc = to_document(&registry);
    let body_start = "{\"domains\":{".len();
    let body_end = doc.len() - 2;
    let entry = &doc[body_start..body_end];
    let duplicated = format!("{{\"domains\":{{{},{}}}}}", entry, entry);
    assert!(matches!(from_document(&duplicated), Err(Error::Config(_))));
}
