//! The path validator: separator and dot placement rules over a whole path
//! string, checked in one scan.

use vstd::prelude::*;
use vstd::string::StrSliceExecFns;
use vstd::utf8::is_ascii_chars;
use crate::errors::FsError;

verus! {

/// A separator is legal at position `i`: not first, not last, and not next
/// to another separator on either side.
pub open spec fn slash_ok_at(s: Seq<char>, i: int) -> bool {
    &&& 0 < i
    &&& i + 1 < s.len()
    &&& s[i - 1] != '/'
    &&& s[i + 1] != '/'
}

/// A dot is legal at position `i`: not first, not last, and not next to a
/// dot or a separator on either side.
pub open spec fn dot_ok_at(s: Seq<char>, i: int) -> bool {
    &&& 0 < i
    &&& i + 1 < s.len()
    &&& s[i - 1] != '.'
    &&& s[i - 1] != '/'
    &&& s[i + 1] != '.'
    &&& s[i + 1] != '/'
}

/// Position `i` of the path breaks no placement rule.
pub open spec fn position_ok(s: Seq<char>, i: int) -> bool {
    &&& s[i] == '/' ==> slash_ok_at(s, i)
    &&& s[i] == '.' ==> dot_ok_at(s, i)
}

/// The path grammar: ASCII only, at most 256 bytes, and every separator and
/// dot legally placed. An empty string breaks no rule.
pub open spec fn valid_path(s: Seq<char>) -> bool {
    &&& is_ascii_chars(s)
    &&& s.len() <= 256
    &&& forall|i: int| 0 <= i < s.len() ==> position_ok(s, i)
}

/// Checks the separator and dot placement rules across a path string.
/// A purely syntactic check: it does not ask whether the path resolves.
/// A non-ASCII path fails closed, as does one over 256 bytes.
pub fn is_valid_path(path: &str) -> (r: Result<(), FsError>)
    ensures
        r is Ok <==> valid_path(path@),
        r matches Err(e) ==> e == FsError::InvalidPath,
{
    if !path.is_ascii() {
        return Err(FsError::InvalidPath);
    }
    let len = path.unicode_len();
    if len > 256 {
        return Err(FsError::InvalidPath);
    }
    let mut i: usize = 0;
    while i < len
        invariant
            len == path@.len() <= 256,
            i <= len,
            forall|j: int| 0 <= j < i ==> position_ok(path@, j),
        decreases len - i,
    {
        let c = path.get_char(i);
        if c == '/' {
            if i == 0 || i + 1 == len {
                assert(!position_ok(path@, i as int));
                return Err(FsError::InvalidPath);
            }
            let before = path.get_char(i - 1);
            let after = path.get_char(i + 1);
            if before == '/' || after == '/' {
                assert(!position_ok(path@, i as int));
                return Err(FsError::InvalidPath);
            }
        } else if c == '.' {
            if i == 0 || i + 1 == len {
                assert(!position_ok(path@, i as int));
                return Err(FsError::InvalidPath);
            }
            let before = path.get_char(i - 1);
            let after = path.get_char(i + 1);
            if before == '.' || before == '/' || after == '.' || after == '/' {
                assert(!position_ok(path@, i as int));
                return Err(FsError::InvalidPath);
            }
        }
        i += 1;
    }
    Ok(())
}

} // verus!
