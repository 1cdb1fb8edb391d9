//! Fresh identifiers for jobs and schedules.

use vstd::prelude::*;

verus! {

/// A lowercase hexadecimal digit.
pub open spec fn lower_hex(c: char) -> bool {
    ('0' <= c <= '9') || ('a' <= c <= 'f')
}

/// Trusted: `uuid::Uuid::new_v4().simple().to_string()`. The result is random; the contract
/// claims only its documented form, 32 lowercase hexadecimal digits.
#[verifier::external_body]
pub(crate) fn new_simple_id() -> (r: String)
    ensures
        r@.len() == 32,
        forall|i: int| 0 <= i < 32 ==> lower_hex(#[trigger] r@[i]),
{
    uuid::Uuid::new_v4().simple().to_string()
}

/// Trusted: `uuid::Uuid::new_v4().to_string()`. The result is random; the contract claims
/// only its documented form, 36 characters with hyphens at positions 8, 13, 18 and 23 and
/// lowercase hexadecimal digits elsewhere.
#[verifier::external_body]
pub(crate) fn new_hyphenated_id() -> (r: String)
    ensures
        r@.len() == 36,
        forall|i: int|
            0 <= i < 36 ==> (if i == 8 || i == 13 || i == 18 || i == 23 {
                #[trigger] r@[i] == '-'
            } else {
                lower_hex(r@[i])
            }),
{
    uuid::Uuid::new_v4().to_string()
}

} // verus!
