//! Splitting a path string on `/` into its ordered segments.

use vstd::prelude::*;
use vstd::string::StrSliceExecFns;

verus! {

/// The position of the first separator in `s`, or `s.len()` when there is
/// none.
pub open spec fn first_sep(s: Seq<char>) -> int
    decreases s.len(),
{
    if s.len() == 0 {
        0
    } else if s[0] == '/' {
        0
    } else {
        1 + first_sep(s.drop_first())
    }
}

/// A position with no separator before it, and a separator at it or the
/// string's end, is exactly `first_sep`.
pub proof fn lemma_first_sep_unique(s: Seq<char>, i: int)
    requires
        0 <= i <= s.len(),
        forall|j: int| 0 <= j < i ==> s[j] != '/',
        i < s.len() ==> s[i] == '/',
    ensures
        first_sep(s) == i,
    decreases s.len(),
{
    if s.len() == 0 {
    } else if s[0] == '/' {
        assert(i == 0);
    } else {
        assert(i >= 1);
        lemma_first_sep_unique(s.drop_first(), i - 1);
    }
}

/// The ordered segments of a path: maximal runs of characters between
/// separators. A path without separators is one segment; each separator
/// ends the segment before it.
pub open spec fn split_path(s: Seq<char>) -> Seq<Seq<char>>
    decreases s.len(),
{
    let i = first_sep(s);
    if i < 0 || s.len() <= i {
        seq![s]
    } else {
        seq![s.take(i)] + split_path(s.skip(i + 1))
    }
}

/// Splits a path string on `/` into owned segments, in order.
pub fn split_segments(path: &str) -> (segs: Vec<String>)
    ensures
        segs.deep_view() == split_path(path@),
        segs@.len() >= 1,
    decreases path@.len(),
{
    let len = path.unicode_len();
    let mut i: usize = 0;
    while i < len && path.get_char(i) != '/'
        invariant
            i <= len,
            len == path@.len(),
            forall|j: int| 0 <= j < i ==> path@[j] != '/',
        decreases len - i,
    {
        i += 1;
    }
    proof {
        lemma_first_sep_unique(path@, i as int);
    }
    if i == len {
        let mut segs: Vec<String> = Vec::new();
        segs.push(path.to_owned());
        proof {
            assert(segs.deep_view() =~= split_path(path@));
        }
        segs
    } else {
        let head = path.substring_char(0, i).to_owned();
        let tail = path.substring_char(i + 1, len);
        let mut segs = split_segments(tail);
        let ghost rest = segs@;
        segs.insert(0, head);
        proof {
            assert(head@ == path@.take(i as int));
            assert(tail@ == path@.skip(i as int + 1));
            assert forall|j: int| 0 <= j < segs.deep_view().len() implies segs.deep_view()[j]
                == split_path(path@)[j] by {
                if j > 0 {
                    assert(segs@[j] == rest[j - 1]);
                }
            }
            assert(segs.deep_view() =~= split_path(path@));
        }
        segs
    }
}

} // verus!
