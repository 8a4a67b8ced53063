//! The few points where the crate touches code that Verus does not read.

use vstd::prelude::*;

verus! {

/// `std::io::Error` is carried opaquely inside `EncodeError::Io` and
/// `DecodeError::Io` so that a caller driving a real stream can hand the
/// underlying cause through.  Nothing in this crate reads it.
#[verifier::external_type_specification]
#[verifier::external_body]
pub struct ExIoError(std::io::Error);

/// Relies on `String` collecting a `char` iterator (`FromIterator<char>`):
/// the resulting string holds exactly the characters of `v`, in order.
#[verifier::external_body]
pub(crate) fn chars_to_string(v: &Vec<char>) -> (r: String)
    ensures
        r@ == v@,
{
    v.iter().collect()
}

} // verus!
