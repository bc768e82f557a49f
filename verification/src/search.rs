//! Finding the first of a list that stands out.

use vstd::prelude::*;

verus! {

/// The least index at which `flags` holds true.
pub open spec fn first_true(flags: Seq<bool>) -> Option<int>
    decreases flags.len(),
{
    if flags.len() == 0 {
        None
    } else {
        match first_true(flags.drop_last()) {
            Some(i) => Some(i),
            None => if flags.last() {
                Some(flags.len() - 1)
            } else {
                None
            },
        }
    }
}

/// What `first_true` finds is the least index that holds true; it finds none only where
/// none holds true.
pub proof fn lemma_first_true(flags: Seq<bool>)
    ensures
        first_true(flags) matches Some(i) ==> 0 <= i < flags.len() && flags[i] && forall|j: int|
            0 <= j < i ==> !flags[j],
        first_true(flags) is None ==> forall|j: int| 0 <= j < flags.len() ==> !flags[j],
    decreases flags.len(),
{
    if flags.len() > 0 {
        lemma_first_true(flags.drop_last());
        assert forall|j: int| 0 <= j < flags.len() - 1 implies flags[j]
            == flags.drop_last()[j] by {}
    }
}

/// The least index that holds true is what `first_true` finds.
pub proof fn lemma_first_true_at(flags: Seq<bool>, i: int)
    requires
        0 <= i < flags.len(),
        flags[i],
        forall|j: int| 0 <= j < i ==> !flags[j],
    ensures
        first_true(flags) == Some(i),
{
    lemma_first_true(flags);
}

/// Where no index holds true, `first_true` finds none.
pub proof fn lemma_first_true_none(flags: Seq<bool>)
    requires
        forall|j: int| 0 <= j < flags.len() ==> !flags[j],
    ensures
        first_true(flags) is None,
{
    lemma_first_true(flags);
}
/// The second least index at which `flags` holds true.
pub open spec fn second_true(flags: Seq<bool>) -> Option<int> {
    match first_true(flags) {
        Some(w) => match first_true(flags.skip(w + 1)) {
            Some(k) => Some(w + 1 + k),
            None => None,
        },
        None => None,
    }
}

/// Where `second_true` finds none, at most one index holds true.
pub proof fn lemma_at_most_one(flags: Seq<bool>)
    requires
        second_true(flags) is None,
    ensures
        forall|i: int, j: int|
            0 <= i < flags.len() && 0 <= j < flags.len() && flags[i] && flags[j] ==> i == j,
{
    lemma_first_true(flags);
    if let Some(w) = first_true(flags) {
        let rest = flags.skip(w + 1);
        lemma_first_true(rest);
        assert forall|i: int| 0 <= i < flags.len() && flags[i] implies i == w by {
            if i > w {
                assert(rest[i - w - 1] == flags[i]);
            }
        }
    }
}
} // verus!
