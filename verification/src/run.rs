//! Drawing a list of fills, and what holds of every such run.
//!
//! The code here has no access to the record of a [`Canvas`]: each attempt
//! of a run is one call of [`Canvas::fill`], and so one call of the surface.

use vstd::prelude::*;
use crate::surface::Attempt;
use crate::surface::Canvas;
use crate::surface::Fill;
use crate::surface::FillRect;

verus! {

/// Whether `after` continues `before` by a run through `plan` that stopped at
/// the first failure and ended in `result`.
///
/// The attempts of the run are the first fills of `plan`, in order. Every
/// attempt but the last succeeded. On `Ok` the whole plan was attempted and
/// the last attempt succeeded too; on `Err(e)` the last attempt is the one
/// that failed, and `e` is what the surface reported for it.
pub open spec fn ran_fail_fast<E>(
    before: Seq<Attempt<E>>,
    after: Seq<Attempt<E>>,
    plan: Seq<Fill>,
    result: Result<(), E>,
) -> bool {
    let run = after.skip(before.len() as int);
    &&& before.is_prefix_of(after)
    &&& run.len() <= plan.len()
    &&& forall|i: int| 0 <= i < run.len() ==> (#[trigger] run[i]).fill == plan[i]
    &&& forall|i: int| 0 <= i < run.len() - 1 ==> (#[trigger] run[i]).outcome is Ok
    &&& match result {
        Ok(_) => run.len() == plan.len() && (run.len() > 0 ==> run.last().outcome is Ok),
        Err(e) => run.len() > 0 && run.last().outcome == Err::<(), E>(e),
    }
}

/// The fills of a run, without their outcomes.
pub open spec fn fills_of<E>(run: Seq<Attempt<E>>) -> Seq<Fill> {
    Seq::new(run.len(), |i: int| run[i].fill)
}

impl<S: FillRect> Canvas<S> {
    /// Draws the fills of `plan` in order and stops at the first that fails,
    /// whose error it returns. Fills already drawn stay drawn.
    pub fn fill_all(&mut self, plan: &[Fill]) -> (result: Result<(), S::Error>)
        ensures
            ran_fail_fast(old(self).attempts(), final(self).attempts(), plan@, result),
    {
        let ghost before = self.attempts();
        let mut i: usize = 0;
        while i < plan.len()
            invariant
                i <= plan.len(),
                before == old(self).attempts(),
                before.is_prefix_of(self.attempts()),
                self.attempts().len() == before.len() + i,
                forall|j: int|
                    0 <= j < i ==> {
                        &&& (#[trigger] self.attempts().skip(before.len() as int)[j]).fill
                            == plan@[j]
                        &&& self.attempts().skip(before.len() as int)[j].outcome is Ok
                    },
            decreases plan.len() - i,
        {
            let ghost so_far = self.attempts();
            let fill = plan[i];
            let outcome = self.fill(fill);
            proof {
                let earlier = so_far.skip(before.len() as int);
                let run = self.attempts().skip(before.len() as int);
                assert(run.len() == i + 1);
                assert(run.last() == (Attempt { fill, outcome }));
                assert forall|j: int| 0 <= j < i implies #[trigger] run[j] == earlier[j] by {
                    assert(run[j] == self.attempts()[before.len() + j]);
                    assert(earlier[j] == so_far[before.len() + j]);
                }
            }
            match outcome {
                Ok(()) => {},
                Err(e) => {
                    return Err(e);
                },
            }
            i += 1;
        }
        Ok(())
    }
}

/// Runs follow one another: a run through `first` that succeeded, continued
/// by a run through `second`, is a run through `first` and then `second`,
/// with the result of the second.
pub proof fn lemma_runs_compose<E>(
    before: Seq<Attempt<E>>,
    mid: Seq<Attempt<E>>,
    after: Seq<Attempt<E>>,
    first: Seq<Fill>,
    second: Seq<Fill>,
    result: Result<(), E>,
)
    requires
        ran_fail_fast(before, mid, first, Ok(())),
        ran_fail_fast(mid, after, second, result),
    ensures
        ran_fail_fast(before, after, first + second, result),
{
    let run1 = mid.skip(before.len() as int);
    let run2 = after.skip(mid.len() as int);
    let run = after.skip(before.len() as int);
    let plan = first + second;
    assert(before.is_prefix_of(after)) by {
        assert(before =~= mid.subrange(0, before.len() as int));
        assert(mid =~= after.subrange(0, mid.len() as int));
        assert(before =~= after.subrange(0, before.len() as int));
    }
    assert(run.len() == run1.len() + run2.len());
    assert forall|j: int| 0 <= j < run1.len() implies #[trigger] run[j] == run1[j] by {
        assert(mid =~= after.subrange(0, mid.len() as int));
        assert(run[j] == after[before.len() + j]);
        assert(run1[j] == mid[before.len() + j]);
        assert(mid[before.len() + j] == after.subrange(0, mid.len() as int)[before.len() + j]);
    }
    assert forall|j: int| run1.len() <= j < run.len() implies #[trigger] run[j] == run2[j
        - run1.len()] by {
        assert(run[j] == after[before.len() + j]);
        assert(run2[j - run1.len()] == after[mid.len() + (j - run1.len())]);
    }
    assert forall|j: int| 0 <= j < run1.len() implies (#[trigger] run1[j]).outcome is Ok by {
        if j == run1.len() - 1 {
            assert(run1[j] == run1.last());
        }
    }
    assert forall|j: int| 0 <= j < run.len() implies (#[trigger] run[j]).fill == plan[j] by {
        if j < run1.len() {
            assert(run[j] == run1[j]);
        } else {
            assert(run[j] == run2[j - run1.len()]);
        }
    }
    assert forall|j: int| 0 <= j < run.len() - 1 implies (#[trigger] run[j]).outcome is Ok by {
        if j < run1.len() {
            assert(run[j] == run1[j]);
        } else {
            assert(run[j] == run2[j - run1.len()]);
        }
    }
    if run.len() > 0 {
        if run2.len() > 0 {
            assert(run.last() == run2.last()) by {
                assert(run[run.len() - 1] == run2[run.len() - 1 - run1.len()]);
            }
        } else {
            assert(run.last() == run1.last()) by {
                assert(run[run.len() - 1] == run1[run.len() - 1]);
            }
        }
    }
}

/// A run that failed on the way through the beginning of a plan failed on
/// the way through the whole plan.
pub proof fn lemma_failed_run_of_prefix<E>(
    before: Seq<Attempt<E>>,
    after: Seq<Attempt<E>>,
    plan: Seq<Fill>,
    upto: int,
    result: Result<(), E>,
)
    requires
        0 <= upto <= plan.len(),
        result is Err,
        ran_fail_fast(before, after, plan.take(upto), result),
    ensures
        ran_fail_fast(before, after, plan, result),
{
    let run = after.skip(before.len() as int);
    assert forall|j: int| 0 <= j < run.len() implies (#[trigger] run[j]).fill == plan[j] by {
        assert(plan.take(upto)[j] == plan[j]);
    }
}

/// A run that succeeded attempted exactly the fills of its plan, in order.
pub proof fn lemma_complete_run<E>(
    before: Seq<Attempt<E>>,
    after: Seq<Attempt<E>>,
    plan: Seq<Fill>,
)
    requires
        ran_fail_fast(before, after, plan, Ok(())),
    ensures
        after.len() == before.len() + plan.len(),
        fills_of(after.skip(before.len() as int)) == plan,
{
    assert(fills_of(after.skip(before.len() as int)) =~= plan);
}

/// Nothing is attempted after a failure: an attempt of a run that failed is
/// the last of the run, it is the failure that the run reports, and as many
/// fills succeeded before it as its place in the plan says.
pub proof fn lemma_failure_is_last<E>(
    before: Seq<Attempt<E>>,
    after: Seq<Attempt<E>>,
    plan: Seq<Fill>,
    result: Result<(), E>,
    k: int,
)
    requires
        ran_fail_fast(before, after, plan, result),
        0 <= k < after.len() - before.len(),
        after[before.len() + k].outcome is Err,
    ensures
        after.len() == before.len() + k + 1,
        result == after[before.len() + k].outcome,
        forall|j: int| 0 <= j < k ==> (#[trigger] after[before.len() + j]).outcome is Ok,
{
    let run = after.skip(before.len() as int);
    assert(run[k] == after[before.len() + k]);
    assert(run.last() == run[run.len() - 1]);
    assert forall|j: int| 0 <= j < k implies (#[trigger] after[before.len() + j]).outcome is Ok by {
        assert(run[j] == after[before.len() + j]);
    }
}

/// Drawing is repeatable: two runs through the same plan attempted the same
/// fills in the same order, as far as both went, and two that succeeded
/// attempted the same fills altogether.
pub proof fn lemma_runs_agree<E>(
    plan: Seq<Fill>,
    before1: Seq<Attempt<E>>,
    after1: Seq<Attempt<E>>,
    result1: Result<(), E>,
    before2: Seq<Attempt<E>>,
    after2: Seq<Attempt<E>>,
    result2: Result<(), E>,
)
    requires
        ran_fail_fast(before1, after1, plan, result1),
        ran_fail_fast(before2, after2, plan, result2),
    ensures
        forall|i: int|
            0 <= i < after1.len() - before1.len() && i < after2.len() - before2.len() ==> (
            #[trigger] fills_of(after1.skip(before1.len() as int))[i]) == fills_of(
                after2.skip(before2.len() as int),
            )[i],
        result1 is Ok && result2 is Ok ==> fills_of(after1.skip(before1.len() as int))
            == fills_of(after2.skip(before2.len() as int)),
{
    if result1 is Ok && result2 is Ok {
        lemma_complete_run(before1, after1, plan);
        lemma_complete_run(before2, after2, plan);
    }
}

} // verus!
