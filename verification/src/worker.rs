//! Running one transaction to its end.
//!
//! The run is driven from outside, since the kernel does the loading, the stepping and the
//! parking: each function takes what the kernel reported and says what to do next.
use vstd::prelude::*;

use crate::paths::{PathMap, Present};
use crate::text::{concat, dec_text, u64_text};

verus! {

/// What happens when a transaction exhausts its step budget.
#[derive(Clone, Copy, Debug, PartialEq, Eq, Structural)]
pub enum BudgetAction {
    /// Keep partial progress; park what is still pending as inert data.
    Commit,
    /// Roll the whole transaction back.
    Abort,
}

/// The outcome of one step.
#[derive(Debug, PartialEq)]
pub enum StepOutcome {
    Stepped,
    /// Nothing can step; the transaction quiesced.
    Done,
    /// The interpreter rejected an exec; the transaction is rolled back.
    Failed(String),
}

pub ghost enum StepView {
    Stepped,
    Done,
    Failed(Seq<char>),
}

impl StepOutcome {
    pub open spec fn view(&self) -> StepView {
        match self {
            StepOutcome::Stepped => StepView::Stepped,
            StepOutcome::Done => StepView::Done,
            StepOutcome::Failed(e) => StepView::Failed(e@),
        }
    }
}

/// How a run ended. A run that stopped at its budget has parked what was pending, so that its
/// state is final.
#[derive(Debug, PartialEq)]
pub enum WorkerOutcome {
    Quiesced,
    Budget,
    Failed(String),
}

pub ghost enum OutcomeView {
    Quiesced,
    Budget,
    Failed(Seq<char>),
}

impl WorkerOutcome {
    pub open spec fn view(&self) -> OutcomeView {
        match self {
            WorkerOutcome::Quiesced => OutcomeView::Quiesced,
            WorkerOutcome::Budget => OutcomeView::Budget,
            WorkerOutcome::Failed(e) => OutcomeView::Failed(e@),
        }
    }
}

/// What a run produces.
pub struct TxResultParts {
    pub btm: PathMap<Present>,
    pub remove_prefixes: Vec<Vec<u8>>,
    pub count: usize,
    pub steps: u64,
    pub outcome: WorkerOutcome,
}

/// What to do next in a run.
#[derive(Debug, PartialEq)]
pub enum RunAction {
    /// Take one step.
    Step,
    /// Park the pending execs.
    Park,
    /// The run has ended.
    Finish(WorkerOutcome),
}

pub ghost enum RunView {
    Step,
    Park,
    Finish(OutcomeView),
}

impl RunAction {
    pub open spec fn view(&self) -> RunView {
        match self {
            RunAction::Step => RunView::Step,
            RunAction::Park => RunView::Park,
            RunAction::Finish(o) => RunView::Finish(o@),
        }
    }
}

/// A run of one transaction.
pub struct Run {
    pub step_budget: u64,
    pub budget_action: BudgetAction,
    /// The number of expressions loaded.
    pub count: usize,
    /// The number of steps taken.
    pub steps: u64,
}

pub open spec fn exhausted(steps: u64) -> Seq<char> {
    "step budget exhausted ("@ + dec_text(steps as nat) + " steps)"@
}

/// What follows when a number of steps has been taken and more can be.
pub open spec fn go_on(steps: u64, budget: u64, action: BudgetAction) -> RunView {
    if steps < budget {
        RunView::Step
    } else if action == BudgetAction::Commit {
        RunView::Park
    } else {
        RunView::Finish(OutcomeView::Failed(exhausted(steps)))
    }
}

/// How a run starts, given how many expressions were loaded, or why they were refused.
pub open spec fn run_start(
    loaded: Result<usize, Seq<char>>,
    step_budget: u64,
    budget_action: BudgetAction,
) -> (Run, RunView) {
    match loaded {
        Ok(n) => (
            Run { step_budget, budget_action, count: n, steps: 0 },
            go_on(0, step_budget, budget_action),
        ),
        Err(e) => (
            Run { step_budget, budget_action, count: 0, steps: 0 },
            RunView::Finish(OutcomeView::Failed("load failed: "@ + e)),
        ),
    }
}

/// A run after a step.
pub open spec fn run_step(run: Run, outcome: StepView) -> (Run, RunView) {
    match outcome {
        StepView::Stepped => {
            let n = Run { steps: (run.steps + 1) as u64, ..run };
            (n, go_on(n.steps, run.step_budget, run.budget_action))
        },
        StepView::Done => (run, RunView::Finish(OutcomeView::Quiesced)),
        StepView::Failed(e) => (run, RunView::Finish(OutcomeView::Failed(e))),
    }
}

/// How a run ends whose pending execs were to be parked.
pub open spec fn park_outcome(parking: Result<(), Seq<char>>) -> OutcomeView {
    match parking {
        Ok(()) => OutcomeView::Budget,
        Err(e) => OutcomeView::Failed("parking execs: "@ + e),
    }
}

impl Run {
    fn next(&self) -> (r: RunAction)
        ensures
            r@ == go_on(self.steps, self.step_budget, self.budget_action),
    {
        if self.steps < self.step_budget {
            return RunAction::Step;
        }
        match self.budget_action {
            BudgetAction::Commit => RunAction::Park,
            BudgetAction::Abort => {
                let mut out = concat("step budget exhausted (", u64_text(self.steps).as_str());
                out.append(" steps)");
                RunAction::Finish(WorkerOutcome::Failed(out))
            },
        }
    }

    /// A run starts with the outcome of loading the transaction: the number of expressions, or
    /// why they were refused.
    pub fn start(
        loaded: Result<usize, String>,
        step_budget: u64,
        budget_action: BudgetAction,
    ) -> (r: (Run, RunAction))
        ensures
            (r.0, r.1@) == run_start(
                match loaded {
                    Ok(n) => Ok(n),
                    Err(e) => Err(e@),
                },
                step_budget,
                budget_action,
            ),
    {
        match loaded {
            Ok(n) => {
                let run = Run { step_budget, budget_action, count: n, steps: 0 };
                let next = run.next();
                (run, next)
            },
            Err(e) => {
                let run = Run { step_budget, budget_action, count: 0, steps: 0 };
                let text = concat("load failed: ", e.as_str());
                (run, RunAction::Finish(WorkerOutcome::Failed(text)))
            },
        }
    }

    /// A step was taken.
    pub fn stepped(&mut self, outcome: StepOutcome) -> (r: RunAction)
        requires
            old(self).steps < old(self).step_budget,
        ensures
            (*final(self), r@) == run_step(*old(self), outcome@),
            final(self).steps <= final(self).step_budget,
    {
        match outcome {
            StepOutcome::Stepped => {
                self.steps = self.steps + 1;
                self.next()
            },
            StepOutcome::Done => RunAction::Finish(WorkerOutcome::Quiesced),
            StepOutcome::Failed(e) => RunAction::Finish(WorkerOutcome::Failed(e)),
        }
    }

    /// The pending execs were parked, or could not be.
    pub fn parked(&self, outcome: Result<(), String>) -> (r: RunAction)
        ensures
            r@ == RunView::Finish(
                park_outcome(
                    match outcome {
                        Ok(()) => Ok(()),
                        Err(e) => Err(e@),
                    },
                ),
            ),
    {
        match outcome {
            Ok(()) => RunAction::Finish(WorkerOutcome::Budget),
            Err(e) => RunAction::Finish(
                WorkerOutcome::Failed(concat("parking execs: ", e.as_str())),
            ),
        }
    }
}

/// The outcome of a whole run, from the outcomes of its steps in order and that of parking.
pub open spec fn run_outcome(
    steps: Seq<StepView>,
    taken: u64,
    budget: u64,
    action: BudgetAction,
    parking: Result<(), Seq<char>>,
) -> Option<(u64, OutcomeView)>
    decreases steps.len(),
{
    match go_on(taken, budget, action) {
        RunView::Finish(o) => Some((taken, o)),
        RunView::Park => Some(
            (
                taken,
                match parking {
                    Ok(()) => OutcomeView::Budget,
                    Err(e) => OutcomeView::Failed("parking execs: "@ + e),
                },
            ),
        ),
        RunView::Step => if steps.len() == 0 {
            None
        } else {
            match steps[0] {
                StepView::Done => Some((taken, OutcomeView::Quiesced)),
                StepView::Failed(e) => Some((taken, OutcomeView::Failed(e))),
                StepView::Stepped => run_outcome(
                    steps.drop_first(),
                    (taken + 1) as u64,
                    budget,
                    action,
                    parking,
                ),
            }
        },
    }
}

/// A run always ends: after as many steps as the budget allows it asks for none. The steps taken
/// never exceed the budget, and a run that stopped at its budget took all of it.
pub proof fn run_ends_within_budget(
    steps: Seq<StepView>,
    taken: u64,
    budget: u64,
    action: BudgetAction,
    parking: Result<(), Seq<char>>,
)
    requires
        taken <= budget,
    ensures
        steps.len() >= budget - taken ==> run_outcome(steps, taken, budget, action, parking)
            is Some,
        run_outcome(steps, taken, budget, action, parking) matches Some((n, o)) ==> n <= budget && (
        o is Budget ==> n == budget && action == BudgetAction::Commit),
    decreases steps.len(),
{
    if taken < budget && steps.len() > 0 && steps[0] is Stepped {
        run_ends_within_budget(steps.drop_first(), (taken + 1) as u64, budget, action, parking);
    }
}

/// The outcome of a run that panicked, with the panic's message where it has one.
pub fn panicked(message: Option<String>) -> (r: WorkerOutcome)
    ensures
        r@ == OutcomeView::Failed(
            "worker panicked: "@ + match message {
                Some(m) => m@,
                None => "worker panicked"@,
            },
        ),
{
    let text = match message {
        Some(m) => m,
        None => "worker panicked".to_owned(),
    };
    WorkerOutcome::Failed(concat("worker panicked: ", text.as_str()))
}

/// The name of a worker thread.
pub fn worker_name(i: usize) -> (r: String)
    ensures
        r@ == "mork-worker-"@ + dec_text(i as nat),
{
    concat("mork-worker-", u64_text(i as u64).as_str())
}

} // verus!
