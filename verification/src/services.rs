//! Capability interfaces for the external collaborators: certificate
//! tool, web server, service manager, and filesystem.  Each trait
//! carries the contract every implementation is held to; production
//! implementations shell out to the real tools, test doubles keep the
//! state in memory.

use vstd::prelude::*;
use crate::error::Result;
use crate::render::{spec_default_template, spec_render};

verus! {

/// Certificate authority gateway.  `tool_ready` says the tool is
/// installed, `ca_ready` that the local CA is installed, and `issued`
/// which domains have freshly issued transient certificate output.
pub trait CertificateProvider {
    closed spec fn tool_ready(&self) -> bool {
        arbitrary()
    }

    closed spec fn ca_ready(&self) -> bool {
        arbitrary()
    }

    closed spec fn issued(&self) -> Set<Seq<char>> {
        arbitrary()
    }

    /// Whether the certificate tool is available.
    fn is_installed(&self) -> (r: Result<bool>)
        ensures
            r matches Ok(b) ==> b == self.tool_ready(),
    ;

    /// Installs the certificate tool through a system package manager.
    fn install(&mut self) -> (r: Result<()>)
        ensures
            r is Ok ==> final(self).tool_ready(),
            final(self).ca_ready() == old(self).ca_ready(),
            final(self).issued() == old(self).issued(),
    ;

    /// Installs the local certificate authority.
    fn install_ca(&mut self) -> (r: Result<()>)
        ensures
            r is Ok ==> final(self).ca_ready(),
            final(self).tool_ready() == old(self).tool_ready(),
            final(self).issued() == old(self).issued(),
    ;

    /// Issues a certificate for the domain; on success the transient
    /// output for the domain exists.
    fn generate_cert(&mut self, domain: &str) -> (r: Result<()>)
        ensures
            r is Ok ==> final(self).issued() == old(self).issued().insert(domain@),
            r is Err ==> final(self).issued() == old(self).issued(),
            final(self).tool_ready() == old(self).tool_ready(),
            final(self).ca_ready() == old(self).ca_ready(),
    ;

    /// The conventional transient output locations for a domain,
    /// deterministic from the domain name alone.
    fn get_cert_paths(&self, domain: &str) -> (r: (String, String))
        ensures
            r.0@ == domain@ + ".pem"@,
            r.1@ == domain@ + "-key.pem"@,
    ;
}

/// Web-server configuration.  `available_domains` holds the domains
/// with a written virtual-host configuration, `available_text` the
/// written text per domain, `enabled` the activated domains, and
/// `validated` whether the aggregate configuration has passed the
/// syntax check since the last mutation.
pub trait WebServerConfig {
    closed spec fn available_domains(&self) -> Set<Seq<char>> {
        arbitrary()
    }

    closed spec fn available_text(&self, domain: Seq<char>) -> Seq<char> {
        arbitrary()
    }

    closed spec fn enabled(&self) -> Set<Seq<char>> {
        arbitrary()
    }

    closed spec fn validated(&self) -> bool {
        arbitrary()
    }

    /// Renders the virtual-host text for the domain and port from the
    /// given template text, or from the built-in template.
    fn generate_config(&self, domain: &str, port: u16, template: Option<&str>) -> (r: Result<
        String,
    >)
        ensures
            r matches Ok(text) && text@ == spec_render(
                match template {
                    Some(t) => t@,
                    None => spec_default_template(),
                },
                domain@,
                port,
            ),
    ;

    /// Persists the configuration text to the available location for
    /// the domain.
    fn write_config(&mut self, domain: &str, config: &str) -> (r: Result<()>)
        ensures
            r is Ok ==> final(self).available_domains() == old(self).available_domains().insert(
                domain@,
            ),
            r is Ok ==> final(self).available_text(domain@) == config@,
            r is Err ==> final(self).available_domains() == old(self).available_domains(),
            r is Err ==> final(self).available_text(domain@) == old(self).available_text(domain@),
            forall|d: Seq<char>|
                d != domain@ ==> final(self).available_text(d) == old(self).available_text(d),
            final(self).enabled() == old(self).enabled(),
            !final(self).validated(),
    ;

    /// Activates the available configuration for the domain.
    fn enable_site(&mut self, domain: &str) -> (r: Result<()>)
        ensures
            r is Ok ==> final(self).enabled() == old(self).enabled().insert(domain@),
            r is Err ==> final(self).enabled() == old(self).enabled(),
            final(self).available_domains() == old(self).available_domains(),
            forall|d: Seq<char>| final(self).available_text(d) == old(self).available_text(d),
            !final(self).validated(),
    ;

    /// Deactivates the domain.  Idempotent: a domain that is not
    /// enabled is not an error.
    fn disable_site(&mut self, domain: &str) -> (r: Result<()>)
        ensures
            !old(self).enabled().contains(domain@) ==> r is Ok,
            r is Ok ==> final(self).enabled() == old(self).enabled().remove(domain@),
            r is Err ==> final(self).enabled() == old(self).enabled(),
            final(self).available_domains() == old(self).available_domains(),
            forall|d: Seq<char>| final(self).available_text(d) == old(self).available_text(d),
            !final(self).validated(),
    ;

    /// Removes the available configuration for the domain, if present.
    fn remove_config(&mut self, domain: &str) -> (r: Result<()>)
        ensures
            !old(self).available_domains().contains(domain@) ==> r is Ok,
            r is Ok ==> final(self).available_domains() == old(self).available_domains().remove(
                domain@,
            ),
            r is Err ==> final(self).available_domains() == old(self).available_domains(),
            forall|d: Seq<char>|
                d != domain@ ==> final(self).available_text(d) == old(self).available_text(d),
            final(self).enabled() == old(self).enabled(),
            !final(self).validated(),
    ;

    /// Runs the web server's own syntax check over the aggregate
    /// configuration.
    fn test_config(&mut self) -> (r: Result<()>)
        ensures
            r is Ok ==> final(self).validated(),
            final(self).available_domains() == old(self).available_domains(),
            forall|d: Seq<char>| final(self).available_text(d) == old(self).available_text(d),
            final(self).enabled() == old(self).enabled(),
    ;

    /// Applies the configuration without dropping connections.  Only a
    /// configuration that has passed the syntax check since the last
    /// mutation may be applied: reloading an unvalidated configuration
    /// risks taking the whole web server down.
    fn reload(&mut self) -> (r: Result<()>)
        requires
            old(self).validated(),
        ensures
            final(self).available_domains() == old(self).available_domains(),
            forall|d: Seq<char>| final(self).available_text(d) == old(self).available_text(d),
            final(self).enabled() == old(self).enabled(),
            final(self).validated(),
    ;
}

/// OS service manager.  `units` holds the known unit names, `running`
/// the active ones.
pub trait SystemService {
    closed spec fn units(&self) -> Set<Seq<char>> {
        arbitrary()
    }

    closed spec fn running(&self) -> Set<Seq<char>> {
        arbitrary()
    }

    /// Whether a unit of that name exists.
    fn service_exists(&self, service: &str) -> (r: Result<bool>)
        ensures
            r matches Ok(b) ==> b == self.units().contains(service@),
    ;

    /// Whether the unit is currently active.
    fn is_running(&self, service: &str) -> (r: Result<bool>)
        ensures
            r matches Ok(b) ==> b == self.running().contains(service@),
    ;

    /// Restarts the unit; on success it is running.
    fn restart(&mut self, service: &str) -> (r: Result<()>)
        ensures
            final(self).units() == old(self).units(),
            r is Ok ==> final(self).running() == old(self).running().insert(service@),
            r is Err ==> final(self).running() == old(self).running(),
    ;
}

/// Filesystem capability over the managed artifact paths.  `files`
/// holds the paths that exist, `dirs` the directories that exist.
/// File contents are deliberately out of the model: the orchestration
/// decides on existence alone, and nothing verified reads a copied
/// file back.
pub trait FileOperations {
    closed spec fn files(&self) -> Set<Seq<char>> {
        arbitrary()
    }

    closed spec fn dirs(&self) -> Set<Seq<char>> {
        arbitrary()
    }

    /// Creates the directory (and its missing ancestors); a directory
    /// that already exists is left as it is, so repeating the call
    /// changes nothing.
    fn ensure_directory(&mut self, path: &str) -> (r: Result<()>)
        ensures
            r is Ok ==> final(self).dirs() == old(self).dirs().insert(path@),
            r is Err ==> final(self).dirs() == old(self).dirs(),
            final(self).files() == old(self).files(),
    ;

    /// Copies `from` to `to`, overwriting; succeeds only when the
    /// source exists.
    fn copy_file(&mut self, from: &str, to: &str) -> (r: Result<()>)
        ensures
            r is Ok ==> old(self).files().contains(from@) && final(self).files() == old(
                self,
            ).files().insert(to@),
            r is Err ==> final(self).files() == old(self).files(),
            final(self).dirs() == old(self).dirs(),
    ;

    /// Removes the file; a path that does not exist is not an error.
    fn remove_file(&mut self, path: &str) -> (r: Result<()>)
        ensures
            !old(self).files().contains(path@) ==> r is Ok,
            r is Ok ==> final(self).files() == old(self).files().remove(path@),
            r is Err ==> final(self).files() == old(self).files(),
            final(self).dirs() == old(self).dirs(),
    ;

    /// Whether the path exists as a file.
    fn file_exists(&self, path: &str) -> (r: bool)
        ensures
            r == self.files().contains(path@),
    ;
}

} // verus!
