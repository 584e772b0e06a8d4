//! Wall-clock timestamps for provisioning records.

use vstd::prelude::*;
use vstd::string::StringExecFns;
use crate::render::{spec_decimal, u16_to_string};

verus! {

/// Seconds of the Unix epoch rendered in decimal.
pub fn u64_to_string(n: u64) -> (r: String)
    ensures
        r@ == spec_decimal(n as nat),
    decreases n,
{
    if n < 10 {
        let d: u16 = n as u16;
        u16_to_string(d)
    } else {
        let mut out = u64_to_string(n / 10);
        let d: u16 = (n % 10) as u16;
        let digit = u16_to_string(d);
        out.append(digit.as_str());
        assert(out@ =~= spec_decimal(n as nat));
        out
    }
}

/// Relies on std::time::SystemTime::now for the wall clock.  The value
/// depends on the moment of the call, so nothing is assumed of it.
#[verifier::external_body]
fn unix_now_seconds() -> u64 {
    match std::time::SystemTime::now().duration_since(std::time::UNIX_EPOCH) {
        Ok(d) => d.as_secs(),
        Err(_) => 0,
    }
}

/// The local clock.
pub struct Local;

/// A point in time, as seconds of the Unix epoch.
pub struct DateTime {
    timestamp: u64,
}

/// A point in time prepared for rendering.
pub struct FormattedDateTime {
    timestamp: u64,
}

impl Local {
    /// The moment of the call.
    pub fn now() -> DateTime {
        DateTime { timestamp: unix_now_seconds() }
    }
}

impl DateTime {
    /// The seconds of the Unix epoch this point in time holds.
    pub closed spec fn spec_timestamp(&self) -> u64 {
        self.timestamp
    }

    /// A point in time built from seconds of the Unix epoch.
    pub fn from_seconds(timestamp: u64) -> (r: DateTime)
        ensures
            r.spec_timestamp() == timestamp,
    {
        DateTime { timestamp }
    }

    /// Prepares the point in time for rendering.  The format argument
    /// is accepted for interface compatibility; rendering is always
    /// the decimal epoch seconds.
    pub fn format(&self, _fmt: &str) -> (r: FormattedDateTime)
        ensures
            r.spec_timestamp() == self.spec_timestamp(),
    {
        FormattedDateTime { timestamp: self.timestamp }
    }
}

impl FormattedDateTime {
    /// The seconds of the Unix epoch this value holds.
    pub closed spec fn spec_timestamp(&self) -> u64 {
        self.timestamp
    }

    /// The rendered text: decimal epoch seconds.
    pub fn render(&self) -> (r: String)
        ensures
            r@ == spec_decimal(self.spec_timestamp() as nat),
    {
        u64_to_string(self.timestamp)
    }
}

/// The moment of the call, rendered as decimal epoch seconds.  The
/// clock's value cannot be pinned, but every outcome is the decimal
/// numeral of some moment.
pub fn get_timestamp() -> (r: String)
    ensures
        r@.len() > 0,
        exists|t: u64| r@ == spec_decimal(t as nat),
{
    let now = Local::now();
    let formatted = now.format("%Y-%m-%d %H:%M:%S");
    let r = formatted.render();
    proof {
        lemma_spec_decimal_nonempty(formatted.spec_timestamp() as nat);
        assert(r@ == spec_decimal(formatted.spec_timestamp() as nat));
    }
    r
}

/// A decimal rendering is never empty.
pub proof fn lemma_spec_decimal_nonempty(n: nat)
    ensures
        spec_decimal(n).len() > 0,
    decreases n,
{
    if n >= 10 {
        lemma_spec_decimal_nonempty(n / 10);
    }
}

} // verus!
