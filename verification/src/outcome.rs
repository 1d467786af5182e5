//! Many outcomes taken together: all the values, or the first error.

use vstd::prelude::*;

verus! {

/// The outcome `at` is the first of `outcomes` that is an error.
pub open spec fn first_error_at<T, E>(outcomes: Seq<Result<T, E>>, at: int) -> bool {
    &&& 0 <= at < outcomes.len()
    &&& outcomes[at] is Err
    &&& forall|i: int| 0 <= i < at ==> (#[trigger] outcomes[i]) is Ok
}

/// The values of the outcomes, as far as they are values.
pub open spec fn values<T, E>(outcomes: Seq<Result<T, E>>) -> Seq<T> {
    outcomes.map_values(|outcome: Result<T, E>| outcome->Ok_0)
}

/// The values of all the outcomes in their order if none of them is an
/// error, and else the first error among them.
pub open spec fn collected<T, E>(outcomes: Seq<Result<T, E>>) -> Result<Seq<T>, E> {
    if exists|at: int| first_error_at(outcomes, at) {
        Err(outcomes[choose|at: int| first_error_at(outcomes, at)]->Err_0)
    } else {
        Ok(values(outcomes))
    }
}

/// The first error among the outcomes is the one that comes out.
pub proof fn lemma_collected_error<T, E>(outcomes: Seq<Result<T, E>>, at: int)
    requires
        first_error_at(outcomes, at),
    ensures
        collected(outcomes) == Err::<Seq<T>, E>(outcomes[at]->Err_0),
{
    let other = choose|other: int| first_error_at(outcomes, other);
    if other < at {
        assert(outcomes[other] is Ok);
    } else if at < other {
        assert(outcomes[at] is Ok);
    }
}

/// Outcomes without an error give all their values.
pub proof fn lemma_collected_values<T, E>(outcomes: Seq<Result<T, E>>)
    requires
        forall|i: int| 0 <= i < outcomes.len() ==> (#[trigger] outcomes[i]) is Ok,
    ensures
        collected(outcomes) == Ok::<Seq<T>, E>(values(outcomes)),
{
}

/// An error comes out exactly if some outcome is an error, and all the
/// values come out exactly if none is.
pub proof fn lemma_collected_is_ok<T, E>(outcomes: Seq<Result<T, E>>)
    ensures
        collected(outcomes) is Ok <==> forall|i: int|
            0 <= i < outcomes.len() ==> (#[trigger] outcomes[i]) is Ok,
    decreases outcomes.len(),
{
    if exists|i: int| 0 <= i < outcomes.len() && (#[trigger] outcomes[i]) is Err {
        let some = choose|i: int| 0 <= i < outcomes.len() && (#[trigger] outcomes[i]) is Err;
        let at = lemma_first_error_exists(outcomes, some);
        lemma_collected_error(outcomes, at);
    }
}

/// Before any error there is a first one.
pub proof fn lemma_first_error_exists<T, E>(outcomes: Seq<Result<T, E>>, some: int) -> (at: int)
    requires
        0 <= some < outcomes.len(),
        outcomes[some] is Err,
    ensures
        first_error_at(outcomes, at),
        at <= some,
    decreases some,
{
    if exists|i: int| 0 <= i < some && (#[trigger] outcomes[i]) is Err {
        let earlier = choose|i: int| 0 <= i < some && (#[trigger] outcomes[i]) is Err;
        lemma_first_error_exists(outcomes, earlier)
    } else {
        some
    }
}

} // verus!
