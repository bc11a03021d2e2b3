//! The configuration of the background scheduler.
use vstd::prelude::*;

use crate::sweep::strategy::{build_strategy, strategy_of};
use crate::text::{concat, str_eq};

verus! {

#[derive(Clone, Debug)]
pub struct SchedulerConfig {
    /// Transactions that run between two background rounds.
    pub foreground_transactions_per_round: usize,
    pub poll_interval_ms: u64,
    /// The background processes in the order in which they run.
    pub processes: Vec<ProcessConfig>,
}

#[derive(Clone, Debug)]
pub struct ProcessConfig {
    pub id: String,
    /// The key of the traversal strategy.
    pub engine: String,
    /// Candidates that are consumed per round.
    pub cycles: usize,
}

/// Transactions per round where none are given.
pub fn default_foreground_transactions() -> (r: usize)
    ensures
        r == 10,
{
    10
}

/// Cycles of a process where none are given.
pub fn default_process_cycles() -> (r: usize)
    ensures
        r == 1,
{
    1
}

/// The poll interval where none is given.
pub fn default_poll_interval_ms() -> (r: u64)
    ensures
        r == 10,
{
    10
}

/// Whether a process before the `k`-th has the `k`-th one's name.
pub open spec fn named_before(ps: Seq<ProcessConfig>, k: int) -> bool {
    exists|j: int| 0 <= j < k && (#[trigger] ps[j]).id@ == ps[k].id@
}

/// What is wrong with the `k`-th process.
pub open spec fn process_fault(ps: Seq<ProcessConfig>, k: int) -> Option<Seq<char>> {
    let p = ps[k];
    if p.id@.len() == 0 {
        Some("process id must not be empty"@)
    } else if named_before(ps, k) {
        Some("duplicate process id: "@ + p.id@)
    } else if p.cycles == 0 {
        Some("cycles for process "@ + p.id@ + " must be greater than zero"@)
    } else if strategy_of(p.engine@) is None {
        Some("unknown engine for process "@ + p.id@ + ": "@ + p.engine@)
    } else {
        None
    }
}

/// What is wrong with the first process from the `k`-th on with which anything is.
pub open spec fn first_fault(ps: Seq<ProcessConfig>, k: int) -> Option<Seq<char>>
    decreases ps.len() - k,
{
    if k < 0 || k >= ps.len() {
        None
    } else if process_fault(ps, k) is Some {
        process_fault(ps, k)
    } else {
        first_fault(ps, k + 1)
    }
}

impl SchedulerConfig {
    /// What is wrong with a configuration.
    pub open spec fn fault(&self) -> Option<Seq<char>> {
        if self.foreground_transactions_per_round == 0 {
            Some("foreground_transactions_per_round must be greater than zero"@)
        } else if self.poll_interval_ms == 0 {
            Some("poll_interval_ms must be greater than zero"@)
        } else {
            first_fault(self.processes@, 0)
        }
    }

    /// Checks a configuration: the counts are not zero, every process has a name of its own, some
    /// cycles, and an engine that exists.
    pub fn validate(&self) -> (r: Result<(), String>)
        ensures
            match r {
                Ok(()) => self.fault() is None,
                Err(e) => self.fault() == Some(e@),
            },
    {
        if self.foreground_transactions_per_round == 0 {
            return Err("foreground_transactions_per_round must be greater than zero".to_owned());
        }
        if self.poll_interval_ms == 0 {
            return Err("poll_interval_ms must be greater than zero".to_owned());
        }
        let mut k: usize = 0;
        while k < self.processes.len()
            invariant
                k <= self.processes@.len(),
                first_fault(self.processes@, 0) == first_fault(self.processes@, k as int),
                self.foreground_transactions_per_round != 0,
                self.poll_interval_ms != 0,
            decreases self.processes@.len() - k,
        {
            let p = &self.processes[k];
            if p.id.as_str().is_empty() {
                return Err("process id must not be empty".to_owned());
            }
            let mut j: usize = 0;
            while j < k
                invariant
                    j <= k < self.processes@.len(),
                    p == self.processes@[k as int],
                    p.id@.len() > 0,
                    self.fault() == first_fault(self.processes@, k as int),
                    forall|i: int|
                        0 <= i < j ==> (#[trigger] self.processes@[i]).id@ != p.id@,
                decreases k - j,
            {
                if str_eq(self.processes[j].id.as_str(), p.id.as_str()) {
                    assert(self.processes@[j as int].id@ == self.processes@[k as int].id@);
                    return Err(concat("duplicate process id: ", p.id.as_str()));
                }
                j = j + 1;
            }
            assert(!named_before(self.processes@, k as int));
            if p.cycles == 0 {
                let mut e = concat("cycles for process ", p.id.as_str());
                e.append(" must be greater than zero");
                return Err(e);
            }
            if build_strategy(p.engine.as_str()).is_none() {
                let mut e = concat("unknown engine for process ", p.id.as_str());
                e.append(": ");
                e.append(p.engine.as_str());
                return Err(e);
            }
            k = k + 1;
        }
        Ok(())
    }
}

/// In a valid configuration every process has a name of its own, at least one cycle and a known
/// engine.
pub proof fn valid_processes_are_distinct_and_runnable(c: SchedulerConfig, i: int, j: int)
    requires
        c.fault() is None,
        0 <= i < j < c.processes@.len(),
    ensures
        c.processes@[i].id@ != c.processes@[j].id@,
        c.processes@[j].id@.len() > 0,
        c.processes@[j].cycles > 0,
        strategy_of(c.processes@[j].engine@) is Some,
{
    lemma_no_fault(c.processes@, 0, j);
    if c.processes@[i].id@ == c.processes@[j].id@ {
        assert(named_before(c.processes@, j));
    }
}

proof fn lemma_no_fault(ps: Seq<ProcessConfig>, k: int, j: int)
    requires
        first_fault(ps, k) is None,
        0 <= k <= j < ps.len(),
    ensures
        process_fault(ps, j) is None,
    decreases j - k,
{
    if k < j {
        lemma_no_fault(ps, k + 1, j);
    }
}

/// Checks the number of workers, given how many threads the symbol table lets write.
pub fn check_workers(workers: usize, max: usize) -> (r: Result<(), String>)
    ensures
        match r {
            Ok(()) => 1 <= workers <= max,
            Err(e) => !(1 <= workers <= max) && e@ == "--workers must be between 1 and "@
                + crate::text::dec_text(max as nat),
        },
{
    if workers == 0 || workers > max {
        return Err(
            concat("--workers must be between 1 and ", crate::text::u64_text(max as u64).as_str()),
        );
    }
    Ok(())
}

} // verus!
