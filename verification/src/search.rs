//! First occurrence of a byte in a sequence.
use vstd::prelude::*;

verus! {

/// The lowest index at which `s` holds `byte`, or `s.len()` when it holds
/// none.
pub open spec fn first_index_of(s: Seq<u8>, byte: u8) -> int
    decreases s.len(),
{
    if s.len() == 0 || s[0] == byte {
        0
    } else {
        1 + first_index_of(s.drop_first(), byte)
    }
}

/// `first_index_of` is within bounds, nothing before it is `byte`, and it
/// names a place that holds `byte` unless it is the length.
pub proof fn lemma_first_index_of(s: Seq<u8>, byte: u8)
    ensures
        0 <= first_index_of(s, byte) <= s.len(),
        forall|j: int| 0 <= j < first_index_of(s, byte) ==> s[j] != byte,
        first_index_of(s, byte) < s.len() ==> s[first_index_of(s, byte)] == byte,
    decreases s.len(),
{
    if s.len() == 0 || s[0] == byte {
    } else {
        let rest = s.drop_first();
        lemma_first_index_of(rest, byte);
        assert forall|j: int| 0 <= j < first_index_of(s, byte) implies s[j] != byte by {
            if j > 0 {
                assert(s[j] == rest[j - 1]);
            }
        }
    }
}

/// An index `d` with no `byte` before it, and holding `byte` unless it is
/// the length, is `first_index_of`.
pub proof fn lemma_first_index_of_is(s: Seq<u8>, byte: u8, d: int)
    requires
        0 <= d <= s.len(),
        forall|j: int| 0 <= j < d ==> s[j] != byte,
        d < s.len() ==> s[d] == byte,
    ensures
        first_index_of(s, byte) == d,
{
    lemma_first_index_of(s, byte);
}

} // verus!
