//! Registry operations: add, upsert, get, remove, list.

use localstacker::config::{ConfigManager, DomainConfig};
use localstacker::error::Error;

fn record(domain: &str, port: u16) -> DomainConfig {
    DomainConfig {
        domain: domain.to_string(),
        port,
        service: None,
        ssl_cert_path: format!("/etc/nginx/ssl/{}.pem", domain),
        ssl_key_path: format!("/etc/nginx/ssl/{}-key.pem", domain),
        nginx_config_path: format!("/etc/nginx/sites-available/{}", domain),
        created_at: "1700000000".to_string(),
        enabled: true,
    }
}

#[test]
fn add_then_get_returns_record() {
    let mut registry = ConfigManager::new();
    registry.add_domain(record("test.local", 3000)).expect("add should succeed");
    let found = registry.get_domain("test.local").expect("record should exist");
    assert_eq!(found.port, 3000);
    assert_eq!(found.domain, "test.local");
}

#[test]
fn add_duplicate_domain_fails() {
    let mut registry = ConfigManager::new();
    registry.add_domain(record("test.local", 3000)).expect("add should succeed");
    let result = registry.add_domain(record("test.local", 4000));
    assert!(matches!(result, Err(Error::Already(_))));
    assert_eq!(registry.get_domain("test.local").unwrap().port, 3000);
}

#[test]
fn upsert_then_get_returns_latest_record() {
    let mut registry = ConfigManager::new();
    let was_update = registry.upsert_domain(record("test.local", 3000));
    assert!(!was_update);
    let was_update = registry.upsert_domain(record("test.local", 4000));
    assert!(was_update);
    assert_eq!(registry.len(), 1);
    assert_eq!(registry.get_domain("test.local").unwrap().port, 4000);
}

#[test]
fn remove_then_get_returns_absent() {
    let mut registry = ConfigManager::new();
    registry.add_domain(record("a.local", 3000)).expect("add should succeed");
    registry.add_domain(record("b.local", 4000)).expect("add should succeed");
    let removed = registry.remove_domain("a.local").expect("remove should succeed");
    assert_eq!(removed.domain, "a.local");
    assert!(registry.get_domain("a.local").is_none());
    assert_eq!(registry.get_domain("b.local").unwrap().port, 4000);
}

#[test]
fn remove_unknown_domain_fails() {
    let mut registry = ConfigManager::new();
    let result = registry.remove_domain("ghost.local");
    assert!(matches!(result, Err(Error::NotFound(_))));
}

#[test]
fn list_returns_every_record() {
    let mut registry = ConfigManager::new();
    registry.add_domain(record("a.local", 1000)).expect("add should succeed");
    registry.add_domain(record("b.local", 2000)).expect("add should succeed");
    let listed = registry.list_domains();
    assert_eq!(listed.len(), 2);
    let mut domains: Vec<&str> = listed.iter().map(|r| r.domain.as_str()).collect();
    domains.sort();
    assert_eq!(domains, vec!["a.local", "b.local"]);
}
