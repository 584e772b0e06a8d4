//! Status-evaluator and service-manager output decisions.

use localstacker::config::DomainConfig;
use localstacker::status::{
    evaluate_status, is_success_http_code, listing_shows_port, ProbeResults, ServiceState,
};
use localstacker::systemd::{is_active_output, unit_listing_mentions};
use localstacker::utils::{get_mkcert_caroot, parse_passwd_home, str_trim};

#[test]
fn http_codes_2xx_and_3xx_count_as_reachable() {
    assert!(is_success_http_code("200"));
    assert!(is_success_http_code("204"));
    assert!(is_success_http_code("301"));
    assert!(!is_success_http_code("404"));
    assert!(!is_success_http_code("500"));
    assert!(!is_success_http_code(""));
}

#[test]
fn socket_listing_decides_port_listening() {
    assert!(listing_shows_port("LISTEN 0 128 0.0.0.0:3000 0.0.0.0:*", 3000));
    assert!(!listing_shows_port("LISTEN 0 128 0.0.0.0:8080 0.0.0.0:*", 3000));
    assert!(!listing_shows_port("", 3000));
}

#[test]
fn active_output_is_trimmed_and_compared() {
    assert!(is_active_output("active\n"));
    assert!(is_active_output("  active  "));
    assert!(!is_active_output("inactive\n"));
    assert!(!is_active_output("activated"));
}

#[test]
fn unit_listing_decides_existence() {
    assert!(unit_listing_mentions("myapp.service enabled\n", "myapp"));
    assert!(!unit_listing_mentions("other.service enabled\n", "myapp"));
}

#[test]
fn status_report_mirrors_probe_answers() {
    let record = DomainConfig {
        domain: "test.local".to_string(),
        port: 3000,
        service: Some("myapp".to_string()),
        ssl_cert_path: "/etc/nginx/ssl/test.local.pem".to_string(),
        ssl_key_path: "/etc/nginx/ssl/test.local-key.pem".to_string(),
        nginx_config_path: "/etc/nginx/sites-available/test.local".to_string(),
        created_at: "1700000000".to_string(),
        enabled: true,
    };
    let probes = ProbeResults {
        cert_present: true,
        key_present: false,
        config_present: true,
        site_enabled: false,
        port_listening: true,
        service: Some(ServiceState::Stopped),
        https_reachable: false,
    };
    let status = evaluate_status(&record, probes);
    assert_eq!(status.domain, "test.local");
    assert!(status.cert_present);
    assert!(!status.key_present);
    assert!(status.config_present);
    assert!(!status.site_enabled);
    assert!(status.port_listening);
    assert_eq!(status.service, Some(ServiceState::Stopped));
    assert!(!status.https_reachable);
}

#[test]
fn passwd_entry_yields_home_directory() {
    assert_eq!(
        parse_passwd_home("user:x:1000:1000:User Name:/home/user:/bin/bash").as_deref(),
        Some("/home/user")
    );
    assert_eq!(parse_passwd_home("short:entry").as_deref(), None);
}

#[test]
fn caroot_is_under_the_home_directory() {
    assert_eq!(
        get_mkcert_caroot(Some("/home/user")).as_deref(),
        Some("/home/user/.local/share/mkcert")
    );
    assert_eq!(get_mkcert_caroot(None), None);
}

#[test]
fn trim_strips_surrounding_whitespace() {
    assert_eq!(str_trim("  hello \n"), "hello");
    assert_eq!(str_trim("\t\r\n "), "");
    assert_eq!(str_trim("plain"), "plain");
}
