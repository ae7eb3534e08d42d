//! Generation of fresh session identifiers.

use vstd::prelude::*;

verus! {

/// Generates a fresh random session id in its canonical textual form.
///
/// Relies on `uuid::Uuid::new_v4` and the `Display` implementation of
/// `uuid::Uuid`: the hyphenated textual form of a UUID is exactly 36
/// bytes, each a lowercase hex digit or a hyphen. The value itself is
/// random, so nothing is assumed about it beyond its shape; in particular
/// uniqueness is only probabilistic and is checked by the caller where it
/// matters.
#[verifier::external_body]
pub fn fresh_session_id() -> (r: Vec<u8>)
    ensures
        r@.len() == crate::codec::ID_LEN,
        forall|i: int|
            0 <= i < r@.len() ==> r@[i] == 45 || (48 <= r@[i] <= 57) || (97 <= r@[i] <= 102),
{
    uuid::Uuid::new_v4().to_string().into_bytes()
}

} // verus!
