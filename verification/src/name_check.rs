//! The name validator: checks a path string against the allowed character
//! set and length bound.

use vstd::prelude::*;
use vstd::string::StrSliceExecFns;

verus! {

/// What `char::is_alphanumeric` returns for a character.
pub uninterp spec fn is_alnum(c: char) -> bool;

/// Relies on char::is_alphanumeric: whether a character is a Unicode letter
/// or number, a property of the character alone.
#[verifier::external_body]
fn alnum(c: char) -> (r: bool)
    ensures
        r == is_alnum(c),
{
    c.is_alphanumeric()
}

/// A character allowed in a name: alphanumeric, `-`, `.` or `/`.
pub open spec fn name_char_ok(c: char) -> bool {
    is_alnum(c) || c == '-' || c == '.' || c == '/'
}

/// The name grammar: between 1 and 42 characters, all of them allowed.
pub open spec fn valid_name(s: Seq<char>) -> bool {
    1 <= s.len() <= 42 && (forall|i: int| 0 <= i < s.len() ==> name_char_ok(s[i]))
}

/// Checks a name (or, as the creation operations use it, a whole path
/// string) against the name grammar. Pure and total: no input panics.
pub fn is_valid_name(s: &str) -> (r: bool)
    ensures
        r == valid_name(s@),
{
    let len = s.unicode_len();
    if len < 1 || len > 42 {
        return false;
    }
    let mut i: usize = 0;
    while i < len
        invariant
            len == s@.len(),
            1 <= len <= 42,
            i <= len,
            forall|j: int| 0 <= j < i ==> name_char_ok(s@[j]),
        decreases len - i,
    {
        let c = s.get_char(i);
        if !(alnum(c) || c == '-' || c == '.' || c == '/') {
            assert(!name_char_ok(s@[i as int]));
            return false;
        }
        i += 1;
    }
    true
}

} // verus!
