use vstd::prelude::*;

verus! {

/// Relies on `uuid::Uuid::new_v4` and its `Display`, which writes the hyphenated
/// lower-case form (`Hyphenated::LENGTH`, 36 ASCII characters). Nothing more can
/// be said of a random value.
#[verifier::external_body]
pub(crate) fn random_id() -> (r: String)
    ensures
        r@.len() == 36,
{
    uuid::Uuid::new_v4().to_string()
}

} // verus!
