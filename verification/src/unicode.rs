//! Unicode character classes that std computes from its tables.
use vstd::prelude::*;

use crate::text::is_ascii_alnum;

verus! {

/// What `char::is_alphanumeric` answers for `c` (Unicode `Alphabetic` or
/// `Numeric`).
pub uninterp spec fn alphanumeric(c: char) -> bool;

/// Calls `char::is_alphanumeric`. Its answer is named `alphanumeric`; on
/// ASCII characters std documents it as the ASCII letters and digits, which
/// is the only part of the Unicode tables stated here.
#[verifier::external_body]
pub(crate) fn is_alphanumeric(c: char) -> (r: bool)
    ensures
        r == alphanumeric(c),
        (c as u32) < 128 ==> (r <==> is_ascii_alnum(c)),
{
    c.is_alphanumeric()
}

} // verus!
