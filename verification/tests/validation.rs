//! Domain and port validation.

use localstacker::error::Error;
use localstacker::utils::{validate_domain, validate_port};

#[test]
fn test_valid_domains() {
    assert!(validate_domain("example.com").is_ok());
    assert!(validate_domain("sub.example.com").is_ok());
    assert!(validate_domain("my-app.local").is_ok());
    assert!(validate_domain("app123.test").is_ok());
}

#[test]
fn test_invalid_domains() {
    assert!(validate_domain("").is_err());
    assert!(validate_domain(".example.com").is_err());
    assert!(validate_domain("example.com.").is_err());
    assert!(validate_domain("exam ple.com").is_err());
    assert!(validate_domain("exam_ple.com").is_err());
    assert!(validate_domain("exam/ple.com").is_err());
}

#[test]
fn test_valid_ports_with_privilege() {
    assert!(validate_port(80, true).is_ok());
    assert!(validate_port(443, true).is_ok());
    assert!(validate_port(1, true).is_ok());
    assert!(validate_port(3000, true).is_ok());
    assert!(validate_port(8080, true).is_ok());
    assert!(validate_port(65535, true).is_ok());
}

#[test]
fn test_low_ports_need_privilege() {
    assert!(validate_port(80, false).is_err());
    assert!(validate_port(1023, false).is_err());
    assert!(validate_port(1024, false).is_ok());
    assert!(validate_port(65535, false).is_ok());
}

#[test]
fn test_port_zero_always_fails() {
    assert!(validate_port(0, true).is_err());
    assert!(validate_port(0, false).is_err());
}

#[test]
fn validation_errors_carry_messages() {
    let err = localstacker::utils::validate_domain("").unwrap_err();
    assert_eq!(err.message(), "Domain cannot be empty");
    let err = localstacker::utils::validate_port(0, true).unwrap_err();
    assert_eq!(err.message(), "Port cannot be 0");
}

#[test]
fn every_error_kind_carries_its_message() {
    assert_eq!(Error::Io("disk".to_string()).message(), "disk");
    assert_eq!(Error::Command("tool".to_string()).message(), "tool");
    assert_eq!(Error::NotFound("gone".to_string()).message(), "gone");
    assert_eq!(Error::Permission("uid".to_string()).message(), "uid");
    assert_eq!(Error::Already("dup".to_string()).message(), "dup");
    assert_eq!(Error::Config("bad".to_string()).message(), "bad");
}
