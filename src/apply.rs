use vstd::prelude::*;
use crate::plan::{ArchiveMove, ArchivePlan};

verus! {

/// Which part of one move failed.
#[derive(Debug, Clone, Copy, PartialEq, Eq)]
pub enum StepFailure {
    /// The destination's parent directory could not be created.
    CreateDir,
    /// The rename itself failed.
    Rename,
}

/// The move that stopped a run of a plan, and how it failed.
#[derive(Debug, Clone)]
pub struct ExecError {
    pub index: usize,
    pub from: String,
    pub to: String,
    pub failure: StepFailure,
}

/// What to do next while applying a plan.
#[derive(Debug, Clone)]
pub enum ApplyStep {
    /// Perform the move at this index.
    Run(usize),
    /// Every move was performed.
    Finished,
    /// A move failed; the rest are not performed.
    Failed(ExecError),
}

/// `k` is the first failure among `outcomes`.
pub open spec fn first_failure(outcomes: Seq<Result<(), StepFailure>>, k: int) -> bool {
    &&& 0 <= k < outcomes.len()
    &&& outcomes[k] is Err
    &&& forall|j: int| 0 <= j < k ==> outcomes[j] is Ok
}

/// Decides the next step of applying `plan`, given the outcome of each move
/// attempted so far, in order.
///
/// The first failure ends the run and names the failing move; until then the
/// moves are performed one after another, each only once all earlier ones
/// have succeeded.
pub fn next_apply_step(plan: &ArchivePlan, outcomes: &Vec<Result<(), StepFailure>>) -> (r: ApplyStep)
    requires
        outcomes@.len() <= plan.moves@.len(),
    ensures
        r is Failed <==> exists|k: int| first_failure(outcomes@, k),
        r matches ApplyStep::Failed(e) ==> {
            let k = e.index as int;
            &&& first_failure(outcomes@, k)
            &&& outcomes@[k] == Err::<(), StepFailure>(e.failure)
            &&& e.from@ == plan.moves@[k].from@
            &&& e.to@ == plan.moves@[k].to@
        },
        r matches ApplyStep::Run(i) ==> i == outcomes@.len() && i < plan.moves@.len(),
        r is Finished <==> (outcomes@.len() == plan.moves@.len() && forall|k: int|
            0 <= k < outcomes@.len() ==> outcomes@[k] is Ok),
{
    let mut k: usize = 0;
    while k < outcomes.len()
        invariant
            k <= outcomes@.len(),
            outcomes@.len() <= plan.moves@.len(),
            forall|j: int| 0 <= j < k ==> outcomes@[j] is Ok,
        decreases outcomes@.len() - k,
    {
        match outcomes[k] {
            Ok(()) => {},
            Err(f) => {
                let mv: &ArchiveMove = &plan.moves[k];
                assert(first_failure(outcomes@, k as int));
                return ApplyStep::Failed(
                    ExecError { index: k, from: mv.from.clone(), to: mv.to.clone(), failure: f },
                );
            },
        }
        k += 1;
    }
    assert forall|j: int| first_failure(outcomes@, j) implies false by {
        assert(outcomes@[j] is Ok);
    }
    if outcomes.len() < plan.moves.len() {
        ApplyStep::Run(outcomes.len())
    } else {
        ApplyStep::Finished
    }
}

} // verus!
