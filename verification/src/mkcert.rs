//! The certificate-tool gateway: conventional output locations, the
//! CA-root environment override, and the package-manager choice for
//! installing the tool.

use vstd::prelude::*;
use vstd::string::StringExecFns;
use crate::error::{Error, Result};

verus! {

/// Package managers the tool can be installed with, in preference
/// order.
#[derive(Debug, Clone, Copy, PartialEq, Eq, Structural)]
pub enum PackageManager {
    Apt,
    Yum,
    Brew,
}

/// Picks the first available package manager in the fixed preference
/// order apt, yum, brew; with none available the installation is
/// unsupported.
pub fn select_package_manager(apt: bool, yum: bool, brew: bool) -> (r: Result<PackageManager>)
    ensures
        apt ==> (r matches Ok(m) && m == PackageManager::Apt),
        !apt && yum ==> (r matches Ok(m) && m == PackageManager::Yum),
        !apt && !yum && brew ==> (r matches Ok(m) && m == PackageManager::Brew),
        !apt && !yum && !brew ==> (r matches Err(e) && e is NotFound),
{
    if apt {
        Ok(PackageManager::Apt)
    } else if yum {
        Ok(PackageManager::Yum)
    } else if brew {
        Ok(PackageManager::Brew)
    } else {
        Err(
            Error::NotFound(
                "No supported package manager found. Please install mkcert manually.".to_owned(),
            ),
        )
    }
}

/// Gateway to the certificate tool.  `caroot` is the CA-root override
/// propagated to the tool so certificates are signed by the intended
/// CA even under privilege elevation.
pub struct MkcertProvider {
    caroot: Option<String>,
}

impl MkcertProvider {
    /// The CA-root override held, as a sequence of characters.
    pub closed spec fn caroot_view(&self) -> Option<Seq<char>> {
        match self.caroot {
            Some(c) => Some(c@),
            None => None,
        }
    }

    /// A gateway with no CA-root override.
    pub fn new() -> (r: MkcertProvider)
        ensures
            r.caroot_view() is None,
    {
        MkcertProvider { caroot: None }
    }

    /// A gateway with the given CA-root override.
    pub fn with_caroot(caroot: Option<String>) -> (r: MkcertProvider)
        ensures
            match caroot {
                Some(c) => r.caroot_view() == Some(c@),
                None => r.caroot_view() is None,
            },
    {
        MkcertProvider { caroot }
    }

    /// The environment overrides for tool invocations: `CAROOT` when an
    /// override is held, nothing otherwise.
    pub fn get_env(&self) -> (r: Vec<(String, String)>)
        ensures
            match self.caroot_view() {
                Some(c) => r@.len() == 1 && r@[0].0@ == "CAROOT"@ && r@[0].1@ == c,
                None => r@.len() == 0,
            },
    {
        let mut env: Vec<(String, String)> = Vec::new();
        match &self.caroot {
            Some(caroot) => {
                env.push(("CAROOT".to_owned(), caroot.clone()));
            },
            None => {},
        }
        env
    }

    /// The conventional output locations the tool writes a freshly
    /// issued certificate and key to, deterministic from the domain
    /// alone.
    pub fn get_cert_paths(&self, domain: &str) -> (r: (String, String))
        ensures
            r.0@ == domain@ + ".pem"@,
            r.1@ == domain@ + "-key.pem"@,
    {
        let mut cert = domain.to_owned();
        cert.append(".pem");
        let mut key = domain.to_owned();
        key.append("-key.pem");
        (cert, key)
    }
}

} // verus!
