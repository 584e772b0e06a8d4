//! The provisioning orchestrator: sequences certificate issuance,
//! configuration activation and service control against the registry,
//! failing fast and committing the registry record only after every
//! side effect has succeeded.

use vstd::prelude::*;
use vstd::string::StringExecFns;
use crate::config::{find_rec, ConfigManager, DomainConfig, Paths};
use crate::services::{CertificateProvider, FileOperations, SystemService, WebServerConfig};
use crate::error::{Error, Result};
use crate::render::{spec_default_template, spec_render};
use crate::time::get_timestamp;
use crate::utils::{check_root, spec_valid_domain, spec_valid_port, validate_domain, validate_port};

verus! {

/// How the orchestrator runs: `dry_run` suppresses every side effect,
/// `elevated` says whether the caller holds administrator privilege.
#[derive(Debug, Clone, Copy, PartialEq, Eq, Structural)]
pub struct RunOptions {
    pub dry_run: bool,
    pub elevated: bool,
}

/// What a provisioning run did to the registry.
#[derive(Debug, Clone, Copy, PartialEq, Eq, Structural)]
pub enum ProvisionOutcome {
    /// A fresh record was created.
    Created,
    /// An existing record was replaced.
    Updated,
    /// Dry run: every side effect was skipped.
    DryRun,
}

/// The certificate gateway's state is unchanged between `a` and `b`.
pub open spec fn cert_unchanged<C: CertificateProvider>(a: &C, b: &C) -> bool {
    &&& b.tool_ready() == a.tool_ready()
    &&& b.ca_ready() == a.ca_ready()
    &&& b.issued() == a.issued()
}

/// The web server's state is unchanged between `a` and `b`.
pub open spec fn web_unchanged<W: WebServerConfig>(a: &W, b: &W) -> bool {
    &&& b.available_domains() == a.available_domains()
    &&& forall|d: Seq<char>| b.available_text(d) == a.available_text(d)
    &&& b.enabled() == a.enabled()
    &&& b.validated() == a.validated()
}

/// The service manager's state is unchanged between `a` and `b`.
pub open spec fn service_unchanged<S: SystemService>(a: &S, b: &S) -> bool {
    &&& b.units() == a.units()
    &&& b.running() == a.running()
}

/// The filesystem's state is unchanged between `a` and `b`.
pub open spec fn files_unchanged<F: FileOperations>(a: &F, b: &F) -> bool {
    b.files() == a.files() && b.dirs() == a.dirs()
}

/// The record the provision workflow commits for its inputs.
pub open spec fn provisioned_record(
    rec: crate::config::DomainConfigView,
    domain: Seq<char>,
    port: u16,
    service: Option<Seq<char>>,
) -> bool {
    &&& rec.domain == domain
    &&& rec.port == port
    &&& rec.service == service
    &&& rec.ssl_cert_path == "/etc/nginx/ssl/"@ + domain + ".pem"@
    &&& rec.ssl_key_path == "/etc/nginx/ssl/"@ + domain + "-key.pem"@
    &&& rec.nginx_config_path == "/etc/nginx/sites-available/"@ + domain
    &&& rec.enabled == true
}

/// Provisions a domain: validates the request, ensures tool and CA,
/// issues and installs the certificate, writes and enables the
/// virtual host, validates and reloads the web server, optionally
/// restarts the associated service, and only then commits the
/// registry record.
///
/// Steps fail fast: the first error aborts the remaining steps, and
/// the registry is committed only after every side effect succeeded,
/// so a failed run never leaves a record pointing at incomplete
/// state.  In dry-run mode nothing is mutated.  On an update the
/// record keeps the prior record's creation timestamp: `created_at`
/// marks the first successful provisioning.
pub fn provision<C: CertificateProvider, W: WebServerConfig, S: SystemService, F: FileOperations>(
    cert: &mut C,
    web: &mut W,
    service_mgr: &mut S,
    files: &mut F,
    registry: &mut ConfigManager,
    domain: &str,
    port: u16,
    service: Option<String>,
    template: Option<&str>,
    opts: &RunOptions,
) -> (r: Result<ProvisionOutcome>)
    requires
        old(registry).wf(),
    ensures
        final(registry).wf(),
        !opts.elevated ==> (r matches Err(e) && e is Permission),
        opts.elevated && !spec_valid_domain(domain@) ==> (r matches Err(e) && e is Validation),
        opts.elevated && spec_valid_domain(domain@) && !spec_valid_port(port, opts.elevated)
            ==> (r matches Err(e) && e is Validation),
        r is Err ==> final(registry)@ == old(registry)@,
        (!opts.elevated || !spec_valid_domain(domain@) || !spec_valid_port(
            port,
            opts.elevated,
        )) ==> {
            &&& cert_unchanged(old(cert), final(cert))
            &&& web_unchanged(old(web), final(web))
            &&& service_unchanged(old(service_mgr), final(service_mgr))
            &&& files_unchanged(old(files), final(files))
            &&& final(registry)@ == old(registry)@
        },
        opts.dry_run ==> {
            &&& cert_unchanged(old(cert), final(cert))
            &&& web_unchanged(old(web), final(web))
            &&& service_unchanged(old(service_mgr), final(service_mgr))
            &&& files_unchanged(old(files), final(files))
            &&& final(registry)@ == old(registry)@
        },
        opts.dry_run && opts.elevated && spec_valid_domain(domain@) && spec_valid_port(
            port,
            opts.elevated,
        ) ==> (r matches Ok(o) && o is DryRun),
        !opts.dry_run && r is Ok ==> {
            &&& (r matches Ok(o) && (o is Created || o is Updated))
            &&& (r matches Ok(o) && (o is Created <==> find_rec(old(registry)@, domain@) is None))
            &&& (find_rec(final(registry)@, domain@) matches Some(rec) && provisioned_record(
                rec,
                domain@,
                port,
                match service {
                    Some(s) => Some(s@),
                    None => None,
                },
            ))
            &&& forall|n: Seq<char>|
                n != domain@ ==> find_rec(final(registry)@, n) == find_rec(old(registry)@, n)
            &&& (find_rec(old(registry)@, domain@) matches Some(prior) ==> (find_rec(
                final(registry)@,
                domain@,
            ) matches Some(rec) && rec.created_at == prior.created_at))
            &&& final(cert).tool_ready()
            &&& final(cert).ca_ready()
            &&& final(cert).issued().contains(domain@)
            &&& final(files).dirs().contains("/etc/nginx/ssl"@)
            &&& final(files).files().contains("/etc/nginx/ssl/"@ + domain@ + ".pem"@)
            &&& final(files).files().contains("/etc/nginx/ssl/"@ + domain@ + "-key.pem"@)
            &&& !final(files).files().contains(domain@ + ".pem"@)
            &&& !final(files).files().contains(domain@ + "-key.pem"@)
            &&& final(web).available_domains().contains(domain@)
            &&& final(web).available_text(domain@) == spec_render(
                match template {
                    Some(t) => t@,
                    None => spec_default_template(),
                },
                domain@,
                port,
            )
            &&& final(web).enabled().contains(domain@)
            &&& final(web).validated()
        },
{
    match check_root(opts.elevated) {
        Ok(()) => {},
        Err(e) => {
            return Err(e);
        },
    }
    match validate_domain(domain) {
        Ok(()) => {},
        Err(e) => {
            return Err(e);
        },
    }
    match validate_port(port, opts.elevated) {
        Ok(()) => {},
        Err(e) => {
            return Err(e);
        },
    }
    if opts.dry_run {
        return Ok(ProvisionOutcome::DryRun);
    }
    let installed = match cert.is_installed() {
        Ok(b) => b,
        Err(e) => {
            return Err(e);
        },
    };
    if !installed {
        match cert.install() {
            Ok(()) => {},
            Err(e) => {
                return Err(e);
            },
        }
    }
    match cert.install_ca() {
        Ok(()) => {},
        Err(e) => {
            return Err(e);
        },
    }
    match cert.generate_cert(domain) {
        Ok(()) => {},
        Err(e) => {
            return Err(e);
        },
    }
    match files.ensure_directory(Paths::ssl_dir()) {
        Ok(()) => {},
        Err(e) => {
            return Err(e);
        },
    }
    let cert_paths = cert.get_cert_paths(domain);
    let cert_src = cert_paths.0;
    let key_src = cert_paths.1;
    let cert_dest = Paths::ssl_cert(domain);
    let key_dest = Paths::ssl_key(domain);
    match files.copy_file(cert_src.as_str(), cert_dest.as_str()) {
        Ok(()) => {},
        Err(e) => {
            return Err(e);
        },
    }
    match files.copy_file(key_src.as_str(), key_dest.as_str()) {
        Ok(()) => {},
        Err(e) => {
            return Err(e);
        },
    }
    proof {
        reveal_strlit("/etc/nginx/ssl/");
        reveal_strlit(".pem");
        reveal_strlit("-key.pem");
        assert(cert_src@.len() < cert_dest@.len());
        assert(key_src@.len() < key_dest@.len());
        assert(cert_src@.len() < key_dest@.len());
        assert(key_src@ != cert_dest@ && key_src@ != key_dest@);
        assert(cert_src@ != cert_dest@ && cert_src@ != key_dest@);
    }
    match files.remove_file(cert_src.as_str()) {
        Ok(()) => {},
        Err(e) => {
            return Err(e);
        },
    }
    match files.remove_file(key_src.as_str()) {
        Ok(()) => {},
        Err(e) => {
            return Err(e);
        },
    }
    let config_text = match web.generate_config(domain, port, template) {
        Ok(t) => t,
        Err(e) => {
            return Err(e);
        },
    };
    match web.write_config(domain, config_text.as_str()) {
        Ok(()) => {},
        Err(e) => {
            return Err(e);
        },
    }
    match web.enable_site(domain) {
        Ok(()) => {},
        Err(e) => {
            return Err(e);
        },
    }
    match web.test_config() {
        Ok(()) => {},
        Err(e) => {
            return Err(e);
        },
    }
    match web.reload() {
        Ok(()) => {},
        Err(e) => {
            return Err(e);
        },
    }
    match &service {
        Some(name) => {
            let known = match service_mgr.service_exists(name.as_str()) {
                Ok(b) => b,
                Err(_) => false,
            };
            if known {
                match service_mgr.restart(name.as_str()) {
                    Ok(()) => {},
                    Err(e) => {
                        return Err(e);
                    },
                }
            }
        },
        None => {},
    }
    let created_at = match registry.get_domain(domain) {
        Some(prior) => prior.created_at.clone(),
        None => get_timestamp(),
    };
    let record = DomainConfig {
        domain: domain.to_owned(),
        port,
        service,
        ssl_cert_path: cert_dest,
        ssl_key_path: key_dest,
        nginx_config_path: Paths::nginx_config(domain),
        created_at,
        enabled: true,
    };
    let was_update = registry.upsert_domain(record);
    if was_update {
        Ok(ProvisionOutcome::Updated)
    } else {
        Ok(ProvisionOutcome::Created)
    }
}

/// Deprovisions a domain: looks the record up, disables the site,
/// removes the virtual-host configuration, optionally deletes the
/// certificate material, validates and reloads the web server, and
/// removes the registry record last, so the registry never references
/// a domain whose artifacts are only partially cleaned.
pub fn deprovision<W: WebServerConfig, F: FileOperations>(
    web: &mut W,
    files: &mut F,
    registry: &mut ConfigManager,
    domain: &str,
    remove_certs: bool,
    opts: &RunOptions,
) -> (r: Result<()>)
    requires
        old(registry).wf(),
    ensures
        final(registry).wf(),
        !opts.elevated ==> (r matches Err(e) && e is Permission) && web_unchanged(
            old(web),
            final(web),
        ) && files_unchanged(old(files), final(files)) && final(registry)@ == old(registry)@,
        opts.elevated && find_rec(old(registry)@, domain@) is None ==> (r matches Err(e)
            && e is NotFound) && web_unchanged(old(web), final(web)) && files_unchanged(
            old(files),
            final(files),
        ) && final(registry)@ == old(registry)@,
        opts.dry_run ==> web_unchanged(old(web), final(web)) && files_unchanged(
            old(files),
            final(files),
        ) && final(registry)@ == old(registry)@,
        opts.dry_run && opts.elevated && find_rec(old(registry)@, domain@) is Some ==> r is Ok,
        r is Err ==> final(registry)@ == old(registry)@,
        !opts.dry_run && r is Ok ==> {
            &&& find_rec(old(registry)@, domain@) is Some
            &&& find_rec(final(registry)@, domain@) is None
            &&& forall|n: Seq<char>|
                n != domain@ ==> find_rec(final(registry)@, n) == find_rec(old(registry)@, n)
            &&& !final(web).enabled().contains(domain@)
            &&& !final(web).available_domains().contains(domain@)
            &&& final(web).validated()
            &&& (!remove_certs ==> files_unchanged(old(files), final(files)))
            &&& (remove_certs ==> (find_rec(old(registry)@, domain@) matches Some(rec)
                && final(files).files() == old(files).files().remove(rec.ssl_cert_path).remove(
                rec.ssl_key_path,
            )))
        },
{
    match check_root(opts.elevated) {
        Ok(()) => {},
        Err(e) => {
            return Err(e);
        },
    }
    let record = match registry.get_domain(domain) {
        Some(rec) => rec.duplicate(),
        None => {
            let mut msg = "Domain '".to_owned();
            msg.append(domain);
            msg.append("' not found");
            return Err(Error::NotFound(msg));
        },
    };
    if opts.dry_run {
        return Ok(());
    }
    match web.disable_site(domain) {
        Ok(()) => {},
        Err(e) => {
            return Err(e);
        },
    }
    match web.remove_config(domain) {
        Ok(()) => {},
        Err(e) => {
            return Err(e);
        },
    }
    let ghost files_pre = files.files();
    if remove_certs {
        if files.file_exists(record.ssl_cert_path.as_str()) {
            match files.remove_file(record.ssl_cert_path.as_str()) {
                Ok(()) => {},
                Err(e) => {
                    return Err(e);
                },
            }
        }
        proof {
            assert(files.files() =~= files_pre.remove(record.ssl_cert_path@));
        }
        if files.file_exists(record.ssl_key_path.as_str()) {
            match files.remove_file(record.ssl_key_path.as_str()) {
                Ok(()) => {},
                Err(e) => {
                    return Err(e);
                },
            }
        }
        proof {
            assert(files.files() =~= files_pre.remove(record.ssl_cert_path@).remove(
                record.ssl_key_path@,
            ));
        }
    }
    match web.test_config() {
        Ok(()) => {},
        Err(e) => {
            return Err(e);
        },
    }
    match web.reload() {
        Ok(()) => {},
        Err(e) => {
            return Err(e);
        },
    }
    match registry.remove_domain(domain) {
        Ok(_) => Ok(()),
        Err(e) => Err(e),
    }
}

} // verus!
