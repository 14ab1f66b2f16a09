//! Verdicts: which rule of an ordered list a run breaks first.

use vstd::prelude::*;

verus! {

/// One of an ordered list of rules about runs of some kind.
pub trait Rule: Sized {
    /// What the rule speaks of.
    type Run;

    /// The place of the rule in the order of checking. No two rules share one.
    spec fn rank(self) -> int;

    /// What the rule says of a run.
    spec fn holds(self, run: Self::Run) -> bool;
}

/// `verdict` is right about `run`: it is `Ok` if every rule holds, and names the
/// first rule that does not hold otherwise.
pub open spec fn decides<R: Rule>(verdict: Result<(), R>, run: R::Run) -> bool {
    match verdict {
        Ok(()) => forall|rule: R| #[trigger] rule.holds(run),
        Err(broken) => {
            &&& !broken.holds(run)
            &&& forall|rule: R| rule.rank() < broken.rank() ==> #[trigger] rule.holds(run)
        },
    }
}

/// `verdict` is right about the rules of `run` that rank from `low` to below
/// `high`: it is `Ok` if they hold, and names the first that does not otherwise.
pub open spec fn decides_between<R: Rule>(
    verdict: Result<(), R>,
    run: R::Run,
    low: int,
    high: int,
) -> bool {
    match verdict {
        Ok(()) => forall|rule: R| low <= rule.rank() < high ==> #[trigger] rule.holds(run),
        Err(broken) => {
            &&& low <= broken.rank() < high
            &&& !broken.holds(run)
            &&& forall|rule: R|
                low <= rule.rank() < broken.rank() ==> #[trigger] rule.holds(run)
        },
    }
}

} // verus!
