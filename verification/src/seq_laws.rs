//! Facts about sequences without repetition.

use vstd::prelude::*;

verus! {

/// A sequence without repetition stays so when something new is added at its end.
pub proof fn lemma_push_keeps_distinct<A>(s: Seq<A>, x: A)
    requires
        s.no_duplicates(),
        !s.contains(x),
    ensures
        s.push(x).no_duplicates(),
{
    assert forall|i: int, j: int|
        0 <= i < s.push(x).len() && 0 <= j < s.push(x).len() && i != j implies s.push(x)[i]
        != s.push(x)[j] by {
        if i < s.len() {
            assert(s.contains(s[i]));
        }
        if j < s.len() {
            assert(s.contains(s[j]));
        }
    }
}

/// Distinct items that all occur in a second sequence of distinct items are
/// no more than it holds; where they are as many, each item of the second
/// occurs among them.
pub proof fn lemma_distinct_within<A>(part: Seq<A>, whole: Seq<A>)
    requires
        part.no_duplicates(),
        whole.no_duplicates(),
        forall|x: A| part.contains(x) ==> whole.contains(x),
    ensures
        part.len() <= whole.len(),
        part.len() == whole.len() ==> forall|x: A| whole.contains(x) ==> part.contains(x),
{
    broadcast use vstd::seq_lib::seq_to_set_is_finite;

    part.unique_seq_to_set();
    whole.unique_seq_to_set();
    assert(part.to_set().subset_of(whole.to_set())) by {
        assert forall|x: A| part.to_set().contains(x) implies whole.to_set().contains(x) by {
            assert(part.contains(x));
        }
    }
    vstd::set_lib::lemma_len_subset(part.to_set(), whole.to_set());
    if part.len() == whole.len() {
        vstd::set_lib::lemma_subset_equality(part.to_set(), whole.to_set());
        assert forall|x: A| whole.contains(x) implies part.contains(x) by {
            assert(whole.to_set().contains(x));
            assert(part.to_set().contains(x));
        }
    }
}

} // verus!
