//! Room id generation.
use vstd::prelude::*;

verus! {

/// Relies on `uuid::Uuid::new_v4` and its hyphenated `Display` form:
/// a freshly generated random identifier. Nothing is promised of the
/// value; the coordinator checks it against existing rooms itself.
#[verifier::external_body]
pub fn fresh_room_id() -> (r: String) {
    uuid::Uuid::new_v4().to_string()
}

} // verus!
