//! End-to-end workflow tests against the library's verified
//! in-memory doubles of the four capability interfaces.

use localstacker::config::ConfigManager;
use localstacker::error::Error;
use localstacker::orchestrator::{deprovision, provision, ProvisionOutcome, RunOptions};
use localstacker::services::{FileOperations, SystemService, WebServerConfig};
use localstacker::sim::{SimCertAuthority, SimFileSystem, SimServiceManager, SimWebServer};

fn live_opts() -> RunOptions {
    RunOptions { dry_run: false, elevated: true }
}

#[test]
fn provision_fresh_domain_reports_created() {
    let mut certs = SimCertAuthority::new();
    let mut web = SimWebServer::new();
    let mut svc = SimServiceManager::new();
    let mut files = SimFileSystem::new();
    let mut registry = ConfigManager::new();
    files.touch("app.local.pem");
    files.touch("app.local-key.pem");

    let outcome = provision(
        &mut certs,
        &mut web,
        &mut svc,
        &mut files,
        &mut registry,
        "app.local",
        4000,
        None,
        None,
        &live_opts(),
    )
    .expect("provision should succeed");
    assert_eq!(outcome, ProvisionOutcome::Created);

    let record = registry.get_domain("app.local").expect("record should exist");
    assert_eq!(record.domain, "app.local");
    assert_eq!(record.port, 4000);
    assert!(record.enabled);
    assert_eq!(record.ssl_cert_path, "/etc/nginx/ssl/app.local.pem");
    assert_eq!(record.ssl_key_path, "/etc/nginx/ssl/app.local-key.pem");
    assert_eq!(record.nginx_config_path, "/etc/nginx/sites-available/app.local");

    assert!(certs.tool_installed());
    assert!(certs.ca_installed());
    assert!(certs.has_issued("app.local"));
    assert!(files.file_exists("/etc/nginx/ssl/app.local.pem"));
    assert!(files.file_exists("/etc/nginx/ssl/app.local-key.pem"));
    assert!(!files.file_exists("app.local.pem"));
    assert!(!files.file_exists("app.local-key.pem"));
    assert!(web.has_config("app.local"));
    assert!(web.is_enabled("app.local"));
    assert!(web.is_validated());
}

#[test]
fn provision_again_reports_updated_with_new_port() {
    let mut certs = SimCertAuthority::new();
    let mut web = SimWebServer::new();
    let mut svc = SimServiceManager::new();
    let mut files = SimFileSystem::new();
    let mut registry = ConfigManager::new();

    files.touch("app.local.pem");
    files.touch("app.local-key.pem");
    let first = provision(
        &mut certs,
        &mut web,
        &mut svc,
        &mut files,
        &mut registry,
        "app.local",
        4000,
        None,
        None,
        &live_opts(),
    )
    .expect("first provision should succeed");
    assert_eq!(first, ProvisionOutcome::Created);

    files.touch("app.local.pem");
    files.touch("app.local-key.pem");
    let second = provision(
        &mut certs,
        &mut web,
        &mut svc,
        &mut files,
        &mut registry,
        "app.local",
        5000,
        None,
        None,
        &live_opts(),
    )
    .expect("second provision should succeed");
    assert_eq!(second, ProvisionOutcome::Updated);

    assert_eq!(registry.len(), 1);
    let record = registry.get_domain("app.local").expect("record should exist");
    assert_eq!(record.port, 5000);
}

#[test]
fn deprovision_keeps_certificates_without_flag() {
    let mut certs = SimCertAuthority::new();
    let mut web = SimWebServer::new();
    let mut svc = SimServiceManager::new();
    let mut files = SimFileSystem::new();
    let mut registry = ConfigManager::new();

    files.touch("app.local.pem");
    files.touch("app.local-key.pem");
    provision(
        &mut certs,
        &mut web,
        &mut svc,
        &mut files,
        &mut registry,
        "app.local",
        4000,
        None,
        None,
        &live_opts(),
    )
    .expect("provision should succeed");

    deprovision(&mut web, &mut files, &mut registry, "app.local", false, &live_opts())
        .expect("deprovision should succeed");

    assert!(files.file_exists("/etc/nginx/ssl/app.local.pem"));
    assert!(files.file_exists("/etc/nginx/ssl/app.local-key.pem"));
    assert!(!web.has_config("app.local"));
    assert!(!web.is_enabled("app.local"));
    assert!(registry.get_domain("app.local").is_none());
}

#[test]
fn deprovision_with_flag_removes_certificates() {
    let mut certs = SimCertAuthority::new();
    let mut web = SimWebServer::new();
    let mut svc = SimServiceManager::new();
    let mut files = SimFileSystem::new();
    let mut registry = ConfigManager::new();

    files.touch("app.local.pem");
    files.touch("app.local-key.pem");
    provision(
        &mut certs,
        &mut web,
        &mut svc,
        &mut files,
        &mut registry,
        "app.local",
        4000,
        None,
        None,
        &live_opts(),
    )
    .expect("provision should succeed");

    deprovision(&mut web, &mut files, &mut registry, "app.local", true, &live_opts())
        .expect("deprovision should succeed");

    assert!(!files.file_exists("/etc/nginx/ssl/app.local.pem"));
    assert!(!files.file_exists("/etc/nginx/ssl/app.local-key.pem"));
    assert!(registry.get_domain("app.local").is_none());
}

#[test]
fn deprovision_unknown_domain_fails_with_not_found() {
    let mut web = SimWebServer::new();
    let mut files = SimFileSystem::new();
    let mut registry = ConfigManager::new();
    files.touch("/etc/nginx/ssl/other.pem");

    let result =
        deprovision(&mut web, &mut files, &mut registry, "ghost.local", true, &live_opts());
    assert!(matches!(result, Err(Error::NotFound(_))));
    assert!(files.file_exists("/etc/nginx/ssl/other.pem"));
    assert!(!web.has_config("ghost.local"));
    assert!(!web.is_enabled("ghost.local"));
}

#[test]
fn dry_run_provision_mutates_nothing() {
    let mut certs = SimCertAuthority::new();
    let mut web = SimWebServer::new();
    let mut svc = SimServiceManager::new();
    let mut files = SimFileSystem::new();
    let mut registry = ConfigManager::new();
    let opts = RunOptions { dry_run: true, elevated: true };

    let outcome = provision(
        &mut certs,
        &mut web,
        &mut svc,
        &mut files,
        &mut registry,
        "app.local",
        4000,
        None,
        None,
        &opts,
    )
    .expect("dry-run provision should succeed");
    assert_eq!(outcome, ProvisionOutcome::DryRun);

    assert!(!certs.tool_installed());
    assert!(!certs.ca_installed());
    assert!(!certs.has_issued("app.local"));
    assert!(!files.file_exists("app.local.pem"));
    assert!(!files.file_exists("/etc/nginx/ssl/app.local.pem"));
    assert!(!web.has_config("app.local"));
    assert!(!web.is_enabled("app.local"));
    assert_eq!(registry.len(), 0);
}

#[test]
fn provision_requires_privilege() {
    let mut certs = SimCertAuthority::new();
    let mut web = SimWebServer::new();
    let mut svc = SimServiceManager::new();
    let mut files = SimFileSystem::new();
    let mut registry = ConfigManager::new();
    let opts = RunOptions { dry_run: false, elevated: false };

    let result = provision(
        &mut certs,
        &mut web,
        &mut svc,
        &mut files,
        &mut registry,
        "app.local",
        4000,
        None,
        None,
        &opts,
    );
    assert!(matches!(result, Err(Error::Permission(_))));
    assert_eq!(registry.len(), 0);
}

#[test]
fn provision_rejects_bad_domain_before_side_effects() {
    let mut certs = SimCertAuthority::new();
    let mut web = SimWebServer::new();
    let mut svc = SimServiceManager::new();
    let mut files = SimFileSystem::new();
    let mut registry = ConfigManager::new();

    let result = provision(
        &mut certs,
        &mut web,
        &mut svc,
        &mut files,
        &mut registry,
        ".bad.domain",
        4000,
        None,
        None,
        &live_opts(),
    );
    assert!(matches!(result, Err(Error::Validation(_))));
    assert!(!certs.tool_installed());
    assert!(!certs.has_issued(".bad.domain"));
    assert_eq!(registry.len(), 0);
}

#[test]
fn provision_rejects_low_port_without_privilege_path() {
    let mut certs = SimCertAuthority::new();
    let mut web = SimWebServer::new();
    let mut svc = SimServiceManager::new();
    let mut files = SimFileSystem::new();
    let mut registry = ConfigManager::new();

    let result = provision(
        &mut certs,
        &mut web,
        &mut svc,
        &mut files,
        &mut registry,
        "app.local",
        0,
        None,
        None,
        &live_opts(),
    );
    assert!(matches!(result, Err(Error::Validation(_))));
    assert_eq!(registry.len(), 0);
}

#[test]
fn provision_restarts_known_service() {
    let mut certs = SimCertAuthority::new();
    let mut web = SimWebServer::new();
    let mut svc = SimServiceManager::new();
    let mut files = SimFileSystem::new();
    let mut registry = ConfigManager::new();
    svc.add_unit("myapp");
    files.touch("app.local.pem");
    files.touch("app.local-key.pem");

    provision(
        &mut certs,
        &mut web,
        &mut svc,
        &mut files,
        &mut registry,
        "app.local",
        4000,
        Some("myapp".to_string()),
        None,
        &live_opts(),
    )
    .expect("provision should succeed");
    assert!(svc.is_running("myapp").expect("query should succeed"));
    let record = registry.get_domain("app.local").expect("record should exist");
    assert_eq!(record.service.as_deref(), Some("myapp"));
}

#[test]
fn disable_site_is_idempotent() {
    let mut web = SimWebServer::new();
    assert!(web.disable_site("never-enabled.local").is_ok());
    web.enable_site("app.local").expect("enable should succeed");
    assert!(web.disable_site("app.local").is_ok());
    assert!(!web.is_enabled("app.local"));
    assert!(web.disable_site("app.local").is_ok());
}

#[test]
fn rendered_config_is_stored_for_the_domain() {
    let mut certs = SimCertAuthority::new();
    let mut web = SimWebServer::new();
    let mut svc = SimServiceManager::new();
    let mut files = SimFileSystem::new();
    let mut registry = ConfigManager::new();
    files.touch("app.local.pem");
    files.touch("app.local-key.pem");

    provision(
        &mut certs,
        &mut web,
        &mut svc,
        &mut files,
        &mut registry,
        "app.local",
        4000,
        None,
        None,
        &live_opts(),
    )
    .expect("provision should succeed");

    let expected =
        localstacker::render::render_config("app.local", 4000, None).expect("render should succeed");
    assert_eq!(web.config_text("app.local").as_deref(), Some(expected.as_str()));
}

#[test]
fn provision_fails_fast_when_issued_outputs_are_missing() {
    let mut certs = SimCertAuthority::new();
    let mut web = SimWebServer::new();
    let mut svc = SimServiceManager::new();
    let mut files = SimFileSystem::new();
    let mut registry = ConfigManager::new();

    let result = provision(
        &mut certs,
        &mut web,
        &mut svc,
        &mut files,
        &mut registry,
        "app.local",
        4000,
        None,
        None,
        &live_opts(),
    );
    assert!(matches!(result, Err(Error::Io(_))));
    assert_eq!(registry.len(), 0);
    assert!(!web.has_config("app.local"));
    assert!(!web.is_enabled("app.local"));
}

#[test]
fn created_at_is_kept_across_updates() {
    let mut certs = SimCertAuthority::new();
    let mut web = SimWebServer::new();
    let mut svc = SimServiceManager::new();
    let mut files = SimFileSystem::new();
    let mut registry = ConfigManager::new();

    files.touch("app.local.pem");
    files.touch("app.local-key.pem");
    provision(
        &mut certs,
        &mut web,
        &mut svc,
        &mut files,
        &mut registry,
        "app.local",
        4000,
        None,
        None,
        &live_opts(),
    )
    .expect("first provision should succeed");
    let first_created = registry.get_domain("app.local").unwrap().created_at.clone();

    files.touch("app.local.pem");
    files.touch("app.local-key.pem");
    provision(
        &mut certs,
        &mut web,
        &mut svc,
        &mut files,
        &mut registry,
        "app.local",
        5000,
        None,
        None,
        &live_opts(),
    )
    .expect("second provision should succeed");
    let record = registry.get_domain("app.local").unwrap();
    assert_eq!(record.created_at, first_created);
    assert_eq!(record.port, 5000);
}

#[test]
fn provision_creates_the_certificate_directory() {
    let mut certs = SimCertAuthority::new();
    let mut web = SimWebServer::new();
    let mut svc = SimServiceManager::new();
    let mut files = SimFileSystem::new();
    let mut registry = ConfigManager::new();
    files.touch("app.local.pem");
    files.touch("app.local-key.pem");
    assert!(!files.dir_exists("/etc/nginx/ssl"));

    provision(
        &mut certs,
        &mut web,
        &mut svc,
        &mut files,
        &mut registry,
        "app.local",
        4000,
        None,
        None,
        &live_opts(),
    )
    .expect("provision should succeed");
    assert!(files.dir_exists("/etc/nginx/ssl"));
}
