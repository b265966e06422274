//! Identifiers drawn at random.

use uuid::Uuid;
use vstd::prelude::*;

use crate::text;

verus! {

/// `s` has the form of a UUID: 32 lower-case hexadecimal digits in groups of 8, 4, 4, 4 and 12
/// with hyphens between them.
pub open spec fn is_uuid_text(s: Seq<char>) -> bool {
    &&& s.len() == 36
    &&& forall|i: int|
        0 <= i < 36 ==> if i == 8 || i == 13 || i == 18 || i == 23 {
            #[trigger] s[i] == '-'
        } else {
            text::is_digit(s[i]) || 'a' <= s[i] <= 'f'
        }
}

/// Calls `Uuid::new_v4` and writes it out. Only the form of the text is promised.
#[verifier::external_body]
pub(crate) fn new_uuid() -> (r: String)
    ensures
        is_uuid_text(r@),
{
    Uuid::new_v4().to_string()
}

} // verus!
