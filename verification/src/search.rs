//! Occurrences of one sequence inside another, and the search for the first one.

use subslice::SubsliceExt;
use vstd::prelude::*;

verus! {

/// `needle` stands in `hay` at index `i`.
pub open spec fn occurs_at<T>(hay: Seq<T>, needle: Seq<T>, i: int) -> bool {
    &&& 0 <= i
    &&& i + needle.len() <= hay.len()
    &&& hay.subrange(i, i + needle.len()) == needle
}

/// `needle` stands somewhere in `hay`.
pub open spec fn contains<T>(hay: Seq<T>, needle: Seq<T>) -> bool {
    exists|i: int| occurs_at(hay, needle, i)
}

/// `i` is the leftmost index at which `needle` stands in `hay`.
pub open spec fn first_at<T>(hay: Seq<T>, needle: Seq<T>, i: int) -> bool {
    &&& occurs_at(hay, needle, i)
    &&& forall|j: int| 0 <= j < i ==> !occurs_at(hay, needle, j)
}

/// The leftmost index at which `needle` stands in `hay`; it means something
/// only where `contains(hay, needle)` holds.
pub open spec fn first_occurrence<T>(hay: Seq<T>, needle: Seq<T>) -> int {
    choose|i: int| first_at(hay, needle, i)
}

/// A leftmost occurrence is the only one of its kind, so it is the one that
/// `first_occurrence` names.
pub proof fn lemma_first_at_unique<T>(hay: Seq<T>, needle: Seq<T>, i: int)
    requires
        first_at(hay, needle, i),
    ensures
        contains(hay, needle),
        first_occurrence(hay, needle) == i,
{
    let k = first_occurrence(hay, needle);
    assert(first_at(hay, needle, k));
    if k < i {
        assert(!occurs_at(hay, needle, k));
    } else if i < k {
        assert(!occurs_at(hay, needle, i));
    }
}

/// At or to the left of any occurrence stands a leftmost one.
proof fn lemma_leftmost_below<T>(hay: Seq<T>, needle: Seq<T>, i: int)
    requires
        occurs_at(hay, needle, i),
    ensures
        exists|k: int| first_at(hay, needle, k),
    decreases i,
{
    if exists|j: int| 0 <= j < i && occurs_at(hay, needle, j) {
        let j = choose|j: int| 0 <= j < i && occurs_at(hay, needle, j);
        lemma_leftmost_below(hay, needle, j);
    } else {
        assert(first_at(hay, needle, i));
    }
}

/// Where `needle` occurs at all, `first_occurrence` is its leftmost occurrence.
pub proof fn lemma_first_occurrence<T>(hay: Seq<T>, needle: Seq<T>)
    requires
        contains(hay, needle),
    ensures
        first_at(hay, needle, first_occurrence(hay, needle)),
{
    let i = choose|i: int| occurs_at(hay, needle, i);
    lemma_leftmost_below(hay, needle, i);
}

/// An occurrence in what is left after skipping `k` items is an occurrence
/// `k` places further right in the whole.
pub proof fn lemma_occurs_at_skip<T>(hay: Seq<T>, needle: Seq<T>, k: int, i: int)
    requires
        0 <= k <= hay.len(),
        0 <= i,
    ensures
        occurs_at(hay.skip(k), needle, i) <==> occurs_at(hay, needle, k + i),
{
    if i + needle.len() <= hay.len() - k {
        assert(hay.skip(k).subrange(i, i + needle.len()) =~= hay.subrange(
            k + i,
            k + i + needle.len(),
        ));
    }
}

/// The first place at which the bytes `needle` stand in `hay`. This is
/// `subslice::SubsliceExt::find` on byte slices, which returns the start of the
/// first subslice equal to `needle`, and `None` where there is none. The
/// contract is taken on trust.
#[verifier::external_body]
pub(crate) fn find(hay: &[u8], needle: &[u8]) -> (r: Option<usize>)
    ensures
        match r {
            Some(i) => first_at(hay@, needle@, i as int),
            None => !contains(hay@, needle@),
        },
{
    hay.find(needle)
}

/// Whether `hay` begins with the bytes `prefix`.
pub fn starts_with(hay: &[u8], prefix: &[u8]) -> (r: bool)
    ensures
        r == prefix@.is_prefix_of(hay@),
{
    if prefix.len() > hay.len() {
        return false;
    }
    let mut i: usize = 0;
    while i < prefix.len()
        invariant
            i <= prefix.len() <= hay.len(),
            forall|j: int| 0 <= j < i ==> hay@[j] == prefix@[j],
        decreases prefix.len() - i,
    {
        if hay[i] != prefix[i] {
            assert(hay@.subrange(0, prefix@.len() as int)[i as int] != prefix@[i as int]);
            return false;
        }
        i += 1;
    }
    assert(hay@.subrange(0, prefix@.len() as int) =~= prefix@);
    true
}

} // verus!
