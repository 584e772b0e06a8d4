//! Virtual-host template rendering.

use localstacker::render::{default_template, render_config, replace_all, u16_to_string};

#[test]
fn test_default_template_generation() {
    let rendered = render_config("test.local", 3000, None).expect("render should succeed");
    assert!(rendered.contains("test.local"));
    assert!(rendered.contains("127.0.0.1:3000"));
    assert!(rendered.contains("ssl_certificate"));
    assert!(rendered.contains("proxy_pass"));
    assert!(rendered.contains("listen 443 ssl"));
    assert!(rendered.contains("listen 80"));
    assert!(rendered.contains("/etc/nginx/ssl/test.local.pem"));
    assert!(rendered.contains("/etc/nginx/ssl/test.local-key.pem"));
    assert!(!rendered.contains("{{domain}}"));
    assert!(!rendered.contains("{{port}}"));
}

#[test]
fn test_template_variable_replacement() {
    let template = "server_name {{domain}}; proxy_pass http://127.0.0.1:{{port}};";
    let rendered = render_config("test.local", 3000, Some(template)).expect("render should succeed");
    assert_eq!(rendered, "server_name test.local; proxy_pass http://127.0.0.1:3000;");
}

#[test]
fn every_token_occurrence_is_substituted() {
    let template = "{{domain}} and {{domain}} on {{port}}/{{port}}";
    let rendered = render_config("a.b", 81, Some(template)).expect("render should succeed");
    assert_eq!(rendered, "a.b and a.b on 81/81");
}

#[test]
fn default_template_contains_both_tokens() {
    let template = default_template();
    assert!(template.contains("{{domain}}"));
    assert!(template.contains("{{port}}"));
}

#[test]
fn replace_all_handles_adjacent_and_absent_patterns() {
    assert_eq!(replace_all("aaa", "a", "bb"), "bbbbbb");
    assert_eq!(replace_all("hello", "xyz", "q"), "hello");
    assert_eq!(replace_all("", "a", "b"), "");
}

#[test]
fn port_rendering_is_decimal() {
    assert_eq!(u16_to_string(0), "0");
    assert_eq!(u16_to_string(7), "7");
    assert_eq!(u16_to_string(443), "443");
    assert_eq!(u16_to_string(65535), "65535");
}
