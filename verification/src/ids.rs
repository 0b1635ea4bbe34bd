//! Random ids for players, emitters and balloons.

use vstd::prelude::*;

verus! {

/// A lower case hexadecimal digit.
pub open spec fn is_hex(c: char) -> bool {
    ('0' <= c && c <= '9') || ('a' <= c && c <= 'f')
}

/// The text of a random UUID: five groups of lower case hexadecimal digits joined by hyphens,
/// with the version 4 and the variant bits `10` in their places.
pub open spec fn is_random_id(s: Seq<char>) -> bool {
    &&& s.len() == 36
    &&& s[8] == '-' && s[13] == '-' && s[18] == '-' && s[23] == '-'
    &&& forall|i: int|
        0 <= i < 36 && i != 8 && i != 13 && i != 18 && i != 23 ==> is_hex(#[trigger] s[i])
    &&& s[14] == '4'
    &&& s[19] == '8' || s[19] == '9' || s[19] == 'a' || s[19] == 'b'
}

/// Draws a random id with `uuid::Uuid::new_v4`, and writes it out with its `Display`.
///
/// Claimed is the form of the text alone: hyphenated, lower case, version 4. Which id comes is
/// chance; that no id comes twice is not claimed. The call panics only where the system has no random
/// bytes to give, whatever the library does.
#[verifier::external_body]
pub(crate) fn fresh_id() -> (id: String)
    ensures
        is_random_id(id@),
{
    uuid::Uuid::new_v4().to_string()
}

} // verus!
