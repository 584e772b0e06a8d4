//! The status evaluator: read-only reconciliation of a registry
//! record against probed system state.  Probing itself is outside
//! work; the decisions on the probe answers are made here.

use vstd::prelude::*;
use vstd::string::{StrSliceExecFns, StringExecFns};
use crate::config::DomainConfig;
use crate::render::{spec_decimal, u16_to_string};
use crate::utils::{spec_contains, str_contains};

verus! {

/// The running state of an associated service, when one is recorded.
#[derive(Debug, Clone, Copy, PartialEq, Eq, Structural)]
pub enum ServiceState {
    Running,
    Stopped,
    Unknown,
}

/// Observed state of one provisioned domain, next to its record.
#[derive(Debug)]
pub struct DomainStatus {
    pub domain: String,
    pub cert_present: bool,
    pub key_present: bool,
    pub config_present: bool,
    pub site_enabled: bool,
    pub port_listening: bool,
    pub service: Option<ServiceState>,
    pub https_reachable: bool,
}

/// Raw probe answers handed in by the caller.
#[derive(Debug)]
pub struct ProbeResults {
    pub cert_present: bool,
    pub key_present: bool,
    pub config_present: bool,
    pub site_enabled: bool,
    pub port_listening: bool,
    pub service: Option<ServiceState>,
    pub https_reachable: bool,
}

/// Decides whether a socket listing shows a listener on the port: the
/// listing must mention `:<port>`.
pub fn listing_shows_port(listing: &str, port: u16) -> (r: bool)
    ensures
        r <==> spec_contains(listing@, seq![':'] + spec_decimal(port as nat)),
{
    let mut pat = ":".to_owned();
    let port_text = u16_to_string(port);
    pat.append(port_text.as_str());
    proof {
        reveal_strlit(":");
        assert(pat@ =~= seq![':'] + spec_decimal(port as nat));
    }
    str_contains(listing, pat.as_str())
}

/// Decides HTTPS reachability from the probe's status code: any 2xx
/// or 3xx answer counts as reachable.
pub fn is_success_http_code(code: &str) -> (r: bool)
    ensures
        r <==> code@.len() > 0 && (code@[0] == '2' || code@[0] == '3'),
{
    if code.unicode_len() == 0 {
        return false;
    }
    let c = code.get_char(0);
    c == '2' || c == '3'
}

/// Pairs a record's identity with the probe answers; the report's
/// fields are exactly the answers handed in.
pub fn evaluate_status(record: &DomainConfig, probes: ProbeResults) -> (r: DomainStatus)
    ensures
        r.domain@ == record.domain@,
        r.cert_present == probes.cert_present,
        r.key_present == probes.key_present,
        r.config_present == probes.config_present,
        r.site_enabled == probes.site_enabled,
        r.port_listening == probes.port_listening,
        r.service == probes.service,
        r.https_reachable == probes.https_reachable,
{
    DomainStatus {
        domain: record.domain.clone(),
        cert_present: probes.cert_present,
        key_present: probes.key_present,
        config_present: probes.config_present,
        site_enabled: probes.site_enabled,
        port_listening: probes.port_listening,
        service: probes.service,
        https_reachable: probes.https_reachable,
    }
}

} // verus!
