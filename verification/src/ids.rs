//! Identifiers of messages.

use crate::crypto::is_hex_digit;
use vstd::prelude::*;

verus! {

/// Whether the character is the one that a random identifier has at the place.
pub open spec fn fits_id(c: char, place: int) -> bool {
    if place == 8 || place == 13 || place == 18 || place == 23 {
        c == '-'
    } else if place == 14 {
        c == '4'
    } else if place == 19 {
        c == '8' || c == '9' || c == 'a' || c == 'b'
    } else {
        is_hex_digit(c)
    }
}

/// Whether the text is a random identifier in its usual form.
pub open spec fn is_id(s: Seq<char>) -> bool {
    s.len() == 36 && forall|i: int| 0 <= i < 36 ==> fits_id(#[trigger] s[i], i)
}

/// Calls `uuid::Uuid::new_v4` and writes the identifier with hyphens, in lower case.
/// Which one comes out is chance; its form is that of version 4. The call panics where
/// the system has no random bytes to give.
#[verifier::external_body]
pub(crate) fn new_id() -> (r: String)
    ensures
        is_id(r@),
{
    uuid::Uuid::new_v4().to_string()
}

} // verus!
