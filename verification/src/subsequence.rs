//! Common subsequences, and why `lcs_len` is the length of a longest one.

use vstd::prelude::*;
use crate::engine::{lcs_len, lcs_len_symmetric};

verus! {

/// `sub` is what is left of `full` after some of its elements are taken out.
pub open spec fn is_subsequence(sub: Seq<u8>, full: Seq<u8>) -> bool
    decreases full.len(),
{
    sub.len() == 0 || (full.len() > 0 && (is_subsequence(sub, full.drop_last()) || (sub.last()
        == full.last() && is_subsequence(sub.drop_last(), full.drop_last()))))
}

/// `sub` is a subsequence of both `a` and `b`.
pub open spec fn is_common_subsequence(sub: Seq<u8>, a: Seq<u8>, b: Seq<u8>) -> bool {
    is_subsequence(sub, a) && is_subsequence(sub, b)
}

/// One longest common subsequence of `a` and `b`.
pub open spec fn longest_common(a: Seq<u8>, b: Seq<u8>) -> Seq<u8>
    decreases a.len() + b.len(),
{
    if a.len() == 0 || b.len() == 0 {
        Seq::empty()
    } else if a.last() == b.last() {
        longest_common(a.drop_last(), b.drop_last()).push(a.last())
    } else if lcs_len(a.drop_last(), b) >= lcs_len(a, b.drop_last()) {
        longest_common(a.drop_last(), b)
    } else {
        longest_common(a, b.drop_last())
    }
}

/// One more element at the end of the second sequence adds nothing or one to
/// the length.
pub proof fn lcs_len_grows_slowly(a: Seq<u8>, b: Seq<u8>)
    requires
        b.len() > 0,
    ensures
        lcs_len(a, b.drop_last()) <= lcs_len(a, b) <= lcs_len(a, b.drop_last()) + 1,
    decreases a.len() + b.len(),
{
    if a.len() > 0 {
        let shorter_a = a.drop_last();
        let shorter_b = b.drop_last();
        lcs_len_symmetric(a, shorter_b);
        lcs_len_symmetric(shorter_a, shorter_b);
        lcs_len_grows_slowly(shorter_b, a);
        if a.last() != b.last() {
            lcs_len_grows_slowly(shorter_a, b);
        }
    }
}

/// No common subsequence is longer than `lcs_len` says.
pub proof fn common_subsequence_is_no_longer(sub: Seq<u8>, a: Seq<u8>, b: Seq<u8>)
    requires
        is_common_subsequence(sub, a, b),
    ensures
        sub.len() <= lcs_len(a, b),
    decreases a.len() + b.len(),
{
    if sub.len() > 0 {
        let shorter_a = a.drop_last();
        let shorter_b = b.drop_last();
        if is_subsequence(sub, shorter_a) {
            common_subsequence_is_no_longer(sub, shorter_a, b);
            lcs_len_symmetric(a, b);
            lcs_len_symmetric(shorter_a, b);
            lcs_len_grows_slowly(b, a);
        } else if is_subsequence(sub, shorter_b) {
            common_subsequence_is_no_longer(sub, a, shorter_b);
            lcs_len_grows_slowly(a, b);
        } else {
            common_subsequence_is_no_longer(sub.drop_last(), shorter_a, shorter_b);
        }
    }
}

/// `longest_common` is a common subsequence, and as long as `lcs_len` says.
pub proof fn longest_common_is_common(a: Seq<u8>, b: Seq<u8>)
    ensures
        is_common_subsequence(longest_common(a, b), a, b),
        longest_common(a, b).len() == lcs_len(a, b),
    decreases a.len() + b.len(),
{
    if a.len() == 0 || b.len() == 0 {
    } else if a.last() == b.last() {
        longest_common_is_common(a.drop_last(), b.drop_last());
        let shorter = longest_common(a.drop_last(), b.drop_last());
        assert(shorter.push(a.last()).drop_last() =~= shorter);
    } else if lcs_len(a.drop_last(), b) >= lcs_len(a, b.drop_last()) {
        longest_common_is_common(a.drop_last(), b);
    } else {
        longest_common_is_common(a, b.drop_last());
    }
}

/// `lcs_len` is the length of a longest common subsequence: some common
/// subsequence has that length, and none is longer.
pub proof fn lcs_len_is_longest(a: Seq<u8>, b: Seq<u8>)
    ensures
        exists|sub: Seq<u8>| #[trigger] is_common_subsequence(sub, a, b) && sub.len() == lcs_len(a, b),
        forall|sub: Seq<u8>| #[trigger] is_common_subsequence(sub, a, b) ==> sub.len() <= lcs_len(a, b),
{
    longest_common_is_common(a, b);
    assert forall|sub: Seq<u8>| #[trigger] is_common_subsequence(sub, a, b) implies sub.len()
        <= lcs_len(a, b) by {
        common_subsequence_is_no_longer(sub, a, b);
    }
}

} // verus!
