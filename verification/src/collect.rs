//! Gathering the results of a list of computations, up to the first failure.
use vstd::prelude::*;

verus! {

/// The first failure in a list of results.
pub open spec fn first_failure<V, E>(r: Seq<Result<V, E>>) -> int {
    choose|i: int|
        0 <= i < r.len() && (#[trigger] r[i]) is Err && forall|j: int|
            0 <= j < i ==> (#[trigger] r[j]) is Ok
}

/// All results where every computation succeeded, else the first failure.
pub open spec fn collected<V, E>(r: Seq<Result<V, E>>) -> Result<Seq<V>, E> {
    if forall|i: int| 0 <= i < r.len() ==> (#[trigger] r[i]) is Ok {
        Ok(Seq::new(r.len(), |i: int| r[i]->Ok_0))
    } else {
        Err(r[first_failure(r)]->Err_0)
    }
}

/// A failure behind successes alone is the one that is reported.
pub proof fn lemma_first_failure<V, E>(r: Seq<Result<V, E>>, i: int)
    requires
        0 <= i < r.len(),
        r[i] is Err,
        forall|j: int| 0 <= j < i ==> (#[trigger] r[j]) is Ok,
    ensures
        collected(r) == Result::<Seq<V>, E>::Err(r[i]->Err_0),
{
    let k = first_failure(r);
    assert(r[i] is Err && 0 <= i < r.len());
    assert(0 <= k < r.len() && r[k] is Err && forall|j: int| 0 <= j < k ==> (#[trigger] r[j]) is Ok);
    if k < i {
        assert(r[k] is Ok);
    }
    if i < k {
        assert(r[i] is Ok);
    }
}

} // verus!
