//! Interpreting the service manager's answers: existence and
//! active-state queries are decided from the tool's output text.

use vstd::prelude::*;
use crate::utils::{spec_contains, spec_trim, str_contains, str_eq, str_trim};

verus! {

/// Decides service existence from the unit-file listing: the service
/// exists when its name occurs in the listing.
pub fn unit_listing_mentions(listing: &str, service: &str) -> (r: bool)
    ensures
        r <==> spec_contains(listing@, service@),
{
    str_contains(listing, service)
}

/// Decides the running state from the activity query's output: the
/// service runs exactly when the trimmed output is `active`.
pub fn is_active_output(output: &str) -> (r: bool)
    ensures
        r <==> spec_trim(output@) == "active"@,
{
    let trimmed = str_trim(output);
    str_eq(trimmed.as_str(), "active")
}

} // verus!
