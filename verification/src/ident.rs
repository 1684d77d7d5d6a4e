//! Names that are made up on the spot.

use vstd::prelude::*;
use vstd::string::*;

verus! {

/// Whether a character is a hexadecimal digit in lower case.
pub open spec fn is_lower_hex(c: char) -> bool {
    '0' <= c <= '9' || 'a' <= c <= 'f'
}

/// Whether a text is a random UUID as it is usually written: groups of 8, 4, 4, 4 and
/// 12 hexadecimal digits in lower case, the third of which starts with 4 and the fourth
/// with 8, 9, a or b.
pub open spec fn is_random_uuid(s: Seq<char>) -> bool {
    &&& s.len() == 36
    &&& forall|i: int|
        0 <= i < 36 ==> if i == 8 || i == 13 || i == 18 || i == 23 {
            #[trigger] s[i] == '-'
        } else {
            is_lower_hex(s[i])
        }
    &&& s[14] == '4'
    &&& (s[19] == '8' || s[19] == '9' || s[19] == 'a' || s[19] == 'b')
}

/// `uuid::Uuid::new_v4`, written out: a random UUID. Which one is left to chance; that
/// no other has been made before is likely, and not said.
#[verifier::external_body]
pub(crate) fn new_id() -> (id: String)
    ensures
        is_random_uuid(id@),
{
    uuid::Uuid::new_v4().to_string()
}

} // verus!
