//! The first of a sequence that fits.

use vstd::prelude::*;

verus! {

/// Position, from `from` on, of the first element that fits.
pub open spec fn first_from<A>(s: Seq<A>, fits: spec_fn(A) -> bool, from: int) -> Option<int>
    decreases s.len() - from,
{
    if from >= s.len() {
        None
    } else if fits(s[from]) {
        Some(from)
    } else {
        first_from(s, fits, from + 1)
    }
}

/// Position of the first element that fits.
pub open spec fn first<A>(s: Seq<A>, fits: spec_fn(A) -> bool) -> Option<int> {
    first_from(s, fits, 0)
}

proof fn lemma_first_from_is<A>(s: Seq<A>, fits: spec_fn(A) -> bool, from: int, at: int)
    requires
        0 <= from <= at < s.len(),
        fits(s[at]),
        forall|j: int| from <= j < at ==> !fits(#[trigger] s[j]),
    ensures
        first_from(s, fits, from) == Some(at),
    decreases at - from,
{
    if from < at {
        lemma_first_from_is(s, fits, from + 1, at);
    }
}

/// The element at `at` fits and none before it does: it is the first.
pub proof fn lemma_first_is<A>(s: Seq<A>, fits: spec_fn(A) -> bool, at: int)
    requires
        0 <= at < s.len(),
        fits(s[at]),
        forall|j: int| 0 <= j < at ==> !fits(#[trigger] s[j]),
    ensures
        first(s, fits) == Some(at),
{
    lemma_first_from_is(s, fits, 0, at);
}

proof fn lemma_first_from_none<A>(s: Seq<A>, fits: spec_fn(A) -> bool, from: int)
    requires
        0 <= from,
        forall|j: int| from <= j < s.len() ==> !fits(#[trigger] s[j]),
    ensures
        first_from(s, fits, from) is None,
    decreases s.len() - from,
{
    if from < s.len() {
        lemma_first_from_none(s, fits, from + 1);
    }
}

/// No element fits: there is no first.
pub proof fn lemma_first_none<A>(s: Seq<A>, fits: spec_fn(A) -> bool)
    requires
        forall|j: int| 0 <= j < s.len() ==> !fits(#[trigger] s[j]),
    ensures
        first(s, fits) is None,
{
    lemma_first_from_none(s, fits, 0);
}

proof fn lemma_first_from_fits<A>(s: Seq<A>, fits: spec_fn(A) -> bool, from: int)
    requires
        0 <= from,
    ensures
        match first_from(s, fits, from) {
            Some(at) => from <= at < s.len() && fits(s[at]) && forall|j: int|
                from <= j < at ==> !fits(#[trigger] s[j]),
            None => forall|j: int| from <= j < s.len() ==> !fits(#[trigger] s[j]),
        },
    decreases s.len() - from,
{
    if from < s.len() && !fits(s[from]) {
        lemma_first_from_fits(s, fits, from + 1);
    }
}

/// What it means to be the first, and that there is none.
pub proof fn lemma_first_fits<A>(s: Seq<A>, fits: spec_fn(A) -> bool)
    ensures
        match first(s, fits) {
            Some(at) => 0 <= at < s.len() && fits(s[at]) && forall|j: int|
                0 <= j < at ==> !fits(#[trigger] s[j]),
            None => forall|j: int| 0 <= j < s.len() ==> !fits(#[trigger] s[j]),
        },
{
    lemma_first_from_fits(s, fits, 0);
}

} // verus!
