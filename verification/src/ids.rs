//! Trusted binding for identifier syntax: the webhook's correlation
//! metadata must carry well-formed UUIDs.
use vstd::prelude::*;

verus! {

/// Whether a string is a well-formed UUID: a function of the
/// characters alone.
pub uninterp spec fn is_uuid(s: Seq<char>) -> bool;

/// Relies on `uuid::Uuid::parse_str`: acceptance depends on the
/// characters alone.
#[verifier::external_body]
pub fn uuid_ok(s: &str) -> (r: bool)
    ensures
        r == is_uuid(s@),
{
    uuid::Uuid::parse_str(s).is_ok()
}

} // verus!
