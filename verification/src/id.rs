//! Opaque random order tokens.
use vstd::prelude::*;

verus! {

/// Relies on `uuid::Uuid::new_v4` and its hyphenated display form — 36
/// characters of which exactly four are hyphens — so that stripping the
/// hyphens leaves the 32 hex digits. The value is random: nothing beyond
/// its shape is promised.
#[verifier::external_body]
pub fn gen() -> (r: String)
    ensures
        r@.len() == 32,
{
    uuid::Uuid::new_v4().to_string().replace("-", "")
}

} // verus!
