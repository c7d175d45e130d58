//! Fresh identifiers for records.

use vstd::prelude::*;

verus! {

/// The form of a random identifier: 36 characters, hyphens at the places 8,
/// 13, 18 and 23, and small hexadecimal digits elsewhere.
pub open spec fn is_identifier(id: Seq<char>) -> bool {
    &&& id.len() == 36
    &&& forall|i: int|
        0 <= i < 36 ==> if i == 8 || i == 13 || i == 18 || i == 23 {
            #[trigger] id[i] == '-'
        } else {
            ('0' <= id[i] && id[i] <= '9') || ('a' <= id[i] && id[i] <= 'f')
        }
}

/// `uuid::Uuid::new_v4` draws a random identifier, and its `to_string`
/// writes it in the hyphenated form with small letters. Which identifier
/// comes is open; its form is stated.
#[verifier::external_body]
pub(crate) fn fresh_id() -> (id: String)
    ensures
        is_identifier(id@),
{
    uuid::Uuid::new_v4().to_string()
}

} // verus!
