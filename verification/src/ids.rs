use vstd::prelude::*;

verus! {

/// Relies on uuid's `Uuid::new_v4` and its `Display` form: a freshly drawn
/// random version-4 identifier, rendered in the hyphenated form of 36
/// characters. The draw is random, so nothing beyond the length is promised.
#[verifier::external_body]
pub fn new_session_id() -> (r: String)
    ensures
        r@.len() == 36,
{
    uuid::Uuid::new_v4().to_string()
}

} // verus!
