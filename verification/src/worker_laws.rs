//! How a run ends: by itself, by a failure, or at its budget.
use vstd::prelude::*;

use crate::text::dec_text;
use crate::worker::{
    park_outcome, run_start, run_step, BudgetAction, OutcomeView, Run, RunView, StepView,
};

verus! {

/// A run after some steps, as long as it goes on.
pub open spec fn run_after(start: Run, first: RunView, steps: Seq<StepView>) -> (Run, RunView)
    decreases steps.len(),
{
    if steps.len() == 0 {
        (start, first)
    } else {
        let (run, asked) = run_after(start, first, steps.drop_last());
        if asked is Step {
            run_step(run, steps.last())
        } else {
            (run, asked)
        }
    }
}

proof fn lemma_all_stepped(start: Run, first: RunView, steps: Seq<StepView>)
    requires
        start.steps == 0,
        first == (if start.step_budget > 0 {
            RunView::Step
        } else {
            first
        }),
        steps.len() <= start.step_budget,
        forall|i: int| 0 <= i < steps.len() ==> #[trigger] steps[i] == StepView::Stepped,
    ensures
        ({
            let (run, asked) = run_after(start, first, steps);
            &&& run.steps == steps.len()
            &&& run.step_budget == start.step_budget
            &&& run.budget_action == start.budget_action
            &&& run.count == start.count
            &&& steps.len() < start.step_budget ==> asked is Step
            &&& steps.len() > 0 && steps.len() == start.step_budget ==> asked == run_step(
                Run { steps: (steps.len() - 1) as u64, ..start },
                StepView::Stepped,
            ).1
        }),
    decreases steps.len(),
{
    if steps.len() > 0 {
        let before = steps.drop_last();
        assert forall|i: int| 0 <= i < before.len() implies #[trigger] before[i]
            == StepView::Stepped by {
            assert(before[i] == steps[i]);
        }
        lemma_all_stepped(start, first, before);
        assert(steps.last() == steps[steps.len() - 1]);
    }
}

/// A transaction that comes to rest before its budget is used up is quiescent, with exactly the
/// steps that it took; a step that fails before that ends the run with the step's own reason.
pub proof fn a_run_ends_with_its_last_step(
    count: usize,
    budget: u64,
    action: BudgetAction,
    steps: Seq<StepView>,
    last: StepView,
)
    requires
        steps.len() < budget,
        forall|i: int| 0 <= i < steps.len() ==> #[trigger] steps[i] == StepView::Stepped,
    ensures
        ({
            let (start, first) = run_start(Ok(count), budget, action);
            let (run, asked) = run_after(start, first, steps.push(last));
            &&& first is Step
            &&& run.count == count
            &&& last is Done ==> asked == RunView::Finish(OutcomeView::Quiesced) && run.steps
                == steps.len()
            &&& last matches StepView::Failed(e) ==> asked == RunView::Finish(
                OutcomeView::Failed(e),
            ) && run.steps == steps.len()
            &&& last is Stepped ==> run.steps == steps.len() + 1 && (steps.len() + 1 < budget
                ==> asked is Step)
        }),
{
    let (start, first) = run_start(Ok(count), budget, action);
    lemma_all_stepped(start, first, steps);
    assert(steps.push(last).drop_last() =~= steps);
}

/// A transaction that uses up its budget takes exactly that many steps, and no more. Then its
/// pending execs are parked, and the run ends as one that reached its budget, or, where they cannot
/// be parked or the budget is to abort, it fails with a reason that says so.
pub proof fn a_run_stops_at_its_budget(
    count: usize,
    budget: u64,
    action: BudgetAction,
    steps: Seq<StepView>,
    refused: Seq<char>,
)
    requires
        steps.len() == budget,
        forall|i: int| 0 <= i < steps.len() ==> #[trigger] steps[i] == StepView::Stepped,
    ensures
        ({
            let (start, first) = run_start(Ok(count), budget, action);
            let (run, asked) = run_after(start, first, steps);
            &&& run.steps == budget
            &&& run.count == count
            &&& action == BudgetAction::Commit ==> asked is Park
            &&& action == BudgetAction::Abort ==> asked == RunView::Finish(
                OutcomeView::Failed(
                    "step budget exhausted ("@ + dec_text(budget as nat) + " steps)"@,
                ),
            )
        }),
        park_outcome(Ok(())) is Budget,
        park_outcome(Err(refused)) == OutcomeView::Failed("parking execs: "@ + refused),
{
    let (start, first) = run_start(Ok(count), budget, action);
    lemma_all_stepped(start, first, steps);
}

/// A transaction that cannot be loaded takes no step and fails with a reason that says so.
pub proof fn a_refused_load_takes_no_step(e: Seq<char>, budget: u64, action: BudgetAction)
    ensures
        run_start(Err(e), budget, action).0.steps == 0,
        run_start(Err(e), budget, action).0.count == 0,
        run_start(Err(e), budget, action).1 == RunView::Finish(
            OutcomeView::Failed("load failed: "@ + e),
        ),
{
}

} // verus!
