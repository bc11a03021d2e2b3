//! The committer's loop: when it takes results, when it takes requests, when it waits, and when
//! it asks for a checkpoint.
use vstd::prelude::*;

use crate::mvcc::{Committed, CommittedView};
use crate::wal::writer::{CkptRequest, Wal};

verus! {

/// What the loop asks for.
#[derive(Clone, Copy, Debug, PartialEq, Eq, Structural)]
pub enum LoopAction {
    /// Take a finished run if there is one.
    TryResult,
    /// Take a request if there is one.
    TryRequest,
    /// Nothing is in flight: announce it, and wait for a request.
    WaitRequest,
    /// Wait for a finished run; with a slot free, only a moment, since a request could start.
    WaitResult { timed: bool },
    /// The engine shuts down.
    Stop,
}

/// What came of it.
#[derive(Clone, Copy, Debug, PartialEq, Eq, Structural)]
pub enum LoopEvent {
    /// There was one. A run is to be committed, a request to be dispatched.
    Got,
    /// There was none, or the wait timed out.
    Nothing,
    /// There will be none any more.
    Closed,
}

/// The loop's state.
pub struct EngineLoop {
    pub workers: usize,
    pub in_flight: usize,
    pub finished: u64,
    pub asked: LoopAction,
}

/// No more runs are in flight than there are workers, and what is asked for fits that number.
pub open spec fn loop_inv(l: EngineLoop) -> bool {
    &&& l.workers > 0
    &&& l.in_flight <= l.workers
    &&& l.asked == LoopAction::TryRequest ==> l.in_flight < l.workers
    &&& l.asked == LoopAction::WaitRequest ==> l.in_flight == 0
    &&& l.asked matches LoopAction::WaitResult { timed } ==> l.in_flight > 0 && timed == (
    l.in_flight < l.workers)
}

/// Whether what happened can have happened: a finished run was in flight.
pub open spec fn possible(l: EngineLoop, e: LoopEvent) -> bool {
    &&& l.asked != LoopAction::Stop
    &&& l.asked == LoopAction::TryResult && e == LoopEvent::Got ==> l.in_flight > 0
}

/// What to wait for when there is nothing to take.
pub open spec fn wait_for(l: EngineLoop) -> LoopAction {
    if l.in_flight == 0 {
        LoopAction::WaitRequest
    } else {
        LoopAction::WaitResult { timed: l.in_flight < l.workers }
    }
}

pub open spec fn after_commit(l: EngineLoop) -> EngineLoop {
    EngineLoop {
        in_flight: (l.in_flight - 1) as usize,
        finished: (l.finished + 1) as u64,
        asked: LoopAction::TryResult,
        ..l
    }
}

pub open spec fn after_dispatch(l: EngineLoop) -> EngineLoop {
    EngineLoop { in_flight: (l.in_flight + 1) as usize, asked: LoopAction::TryResult, ..l }
}

/// The loop's step.
pub open spec fn loop_step(l: EngineLoop, e: LoopEvent) -> EngineLoop {
    match l.asked {
        LoopAction::TryResult => match e {
            LoopEvent::Got => after_commit(l),
            LoopEvent::Closed => EngineLoop { asked: LoopAction::Stop, ..l },
            LoopEvent::Nothing => EngineLoop {
                asked: if l.in_flight < l.workers {
                    LoopAction::TryRequest
                } else {
                    wait_for(l)
                },
                ..l
            },
        },
        LoopAction::TryRequest => match e {
            LoopEvent::Got => after_dispatch(l),
            LoopEvent::Closed => EngineLoop {
                asked: if l.in_flight == 0 {
                    LoopAction::Stop
                } else {
                    wait_for(l)
                },
                ..l
            },
            LoopEvent::Nothing => EngineLoop { asked: wait_for(l), ..l },
        },
        LoopAction::WaitRequest => match e {
            LoopEvent::Got => after_dispatch(l),
            _ => EngineLoop { asked: LoopAction::Stop, ..l },
        },
        LoopAction::WaitResult { .. } => match e {
            LoopEvent::Got => after_commit(l),
            LoopEvent::Nothing => EngineLoop { asked: LoopAction::TryResult, ..l },
            LoopEvent::Closed => EngineLoop { asked: LoopAction::Stop, ..l },
        },
        LoopAction::Stop => l,
    }
}

impl EngineLoop {
    /// A loop over some workers, with nothing in flight; finished runs are looked at first.
    pub fn start(workers: usize) -> (r: EngineLoop)
        requires
            workers > 0,
        ensures
            r == (EngineLoop { workers, in_flight: 0, finished: 0, asked: LoopAction::TryResult }),
            loop_inv(r),
    {
        EngineLoop { workers, in_flight: 0, finished: 0, asked: LoopAction::TryResult }
    }

    fn waiting(&self) -> (r: LoopAction)
        ensures
            r == wait_for(*self),
    {
        if self.in_flight == 0 {
            LoopAction::WaitRequest
        } else {
            LoopAction::WaitResult { timed: self.in_flight < self.workers }
        }
    }

    /// Takes what came of the last thing asked for.
    pub fn step(&mut self, event: LoopEvent) -> (r: LoopAction)
        requires
            loop_inv(*old(self)),
            possible(*old(self), event),
            old(self).finished < u64::MAX,
        ensures
            *final(self) == loop_step(*old(self), event),
            loop_inv(*final(self)),
            r == final(self).asked,
    {
        let next = match self.asked {
            LoopAction::TryResult => match event {
                LoopEvent::Got => {
                    self.in_flight = self.in_flight - 1;
                    self.finished = self.finished + 1;
                    LoopAction::TryResult
                },
                LoopEvent::Closed => LoopAction::Stop,
                LoopEvent::Nothing => if self.in_flight < self.workers {
                    LoopAction::TryRequest
                } else {
                    self.waiting()
                },
            },
            LoopAction::TryRequest => match event {
                LoopEvent::Got => {
                    self.in_flight = self.in_flight + 1;
                    LoopAction::TryResult
                },
                LoopEvent::Closed => if self.in_flight == 0 {
                    LoopAction::Stop
                } else {
                    self.waiting()
                },
                LoopEvent::Nothing => self.waiting(),
            },
            LoopAction::WaitRequest => match event {
                LoopEvent::Got => {
                    self.in_flight = self.in_flight + 1;
                    LoopAction::TryResult
                },
                _ => LoopAction::Stop,
            },
            LoopAction::WaitResult { .. } => match event {
                LoopEvent::Got => {
                    self.in_flight = self.in_flight - 1;
                    self.finished = self.finished + 1;
                    LoopAction::TryResult
                },
                LoopEvent::Nothing => LoopAction::TryResult,
                LoopEvent::Closed => LoopAction::Stop,
            },
            LoopAction::Stop => LoopAction::Stop,
        };
        self.asked = next;
        next
    }
}

/// Never are more runs in flight than there are workers; a request is taken only when a worker is
/// free; the engine waits for a request alone only when nothing is in flight; and it stops for
/// want of requests only when nothing is in flight.
pub proof fn loop_never_overcommits(l: EngineLoop, e: LoopEvent)
    requires
        loop_inv(l),
        possible(l, e),
    ensures
        ({
            let n = loop_step(l, e);
            &&& loop_inv(n)
            &&& n.in_flight > l.in_flight ==> l.in_flight < l.workers && e == LoopEvent::Got && (
            l.asked == LoopAction::TryRequest || l.asked == LoopAction::WaitRequest)
            &&& n.asked == LoopAction::WaitRequest ==> n.in_flight == 0
            &&& n.asked == LoopAction::Stop && (l.asked == LoopAction::TryRequest || l.asked
                == LoopAction::WaitRequest) ==> n.in_flight == 0
        }),
{
}

/// Whether a checkpoint should be taken now: there is a log, checkpoints are wanted, enough
/// transactions have finished, and none is running.
pub open spec fn checkpoint_wanted(
    has_log: bool,
    running: nat,
    finished: u64,
    every: u64,
    next_checkpoint: u64,
) -> bool {
    has_log && every != 0 && finished >= next_checkpoint && running == 0
}

/// What asking for a checkpoint does: one is asked for when it is wanted and the log takes the
/// request, and the next one is then due that many transactions later.
pub open spec fn checkpoint_shown(
    committed: CommittedView,
    finished: u64,
    checkpoint_every: u64,
    tx_counter: u64,
    wal: Option<Wal>,
    connected: bool,
    next_checkpoint: u64,
    wal_after: Option<Wal>,
    next_after: u64,
    r: Option<CkptRequest>,
) -> bool {
    match wal {
        None => r is None && wal_after == wal && next_after == next_checkpoint,
        Some(w) => {
            let wanted = checkpoint_wanted(
                true,
                committed.active_bases.len(),
                finished,
                checkpoint_every,
                next_checkpoint,
            );
            let accepted = wanted && !w.ckpt_busy && !w.poisoned && connected;
            &&& r is Some == accepted
            &&& r matches Some(req) ==> req.version == committed.version && req.tx_counter
                == tx_counter && req.format@ == "paths"@
            &&& next_after == if accepted {
                (finished + checkpoint_every) as u64
            } else {
                next_checkpoint
            }
            &&& wal_after == Some(Wal { ckpt_busy: w.ckpt_busy || accepted, ..w })
        },
    }
}

/// Asks the log for a checkpoint when one is due. One that is due while a transaction is running,
/// or that the log skips, stays due.
pub fn maybe_checkpoint(
    committed: &Committed,
    finished: u64,
    checkpoint_every: u64,
    tx_counter: u64,
    wal: &mut Option<Wal>,
    connected: bool,
    next_checkpoint: &mut u64,
) -> (r: Option<CkptRequest>)
    requires
        ({
            &&& checkpoint_wanted(
                *old(wal) is Some,
                committed@.active_bases.len(),
                finished,
                checkpoint_every,
                *old(next_checkpoint),
            )
            &&& old(wal)->0.ckpt_busy == false
            &&& old(wal)->0.poisoned == false
            &&& connected
        }) ==> finished + checkpoint_every <= u64::MAX,
    ensures
        checkpoint_shown(
            committed@,
            finished,
            checkpoint_every,
            tx_counter,
            *old(wal),
            connected,
            *old(next_checkpoint),
            *final(wal),
            *final(next_checkpoint),
            r,
        ),
{
    match wal.take() {
        None => {
            *wal = None;
            None
        },
        Some(w) => {
            let mut w = w;
            let mut request: Option<CkptRequest> = None;
            if checkpoint_every != 0 && finished >= *next_checkpoint && committed.active_bases.len()
                == 0 {
                if w.checkpoint(connected) {
                    *next_checkpoint = finished + checkpoint_every;
                    request = Some(
                        CkptRequest {
                            version: committed.version,
                            tx_counter,
                            format: "paths".to_owned(),
                        },
                    );
                }
            }
            *wal = Some(w);
            request
        },
    }
}

/// A due checkpoint stays due until one is accepted, however many transactions finish meanwhile:
/// as long as none is accepted the mark does not move, and what is due now is due later.
pub proof fn checkpoint_stays_due(
    has_log: bool,
    finished: u64,
    later: u64,
    every: u64,
    next_checkpoint: u64,
)
    requires
        checkpoint_wanted(has_log, 0, finished, every, next_checkpoint),
        finished <= later,
    ensures
        checkpoint_wanted(has_log, 0, later, every, next_checkpoint),
{
}

/// No checkpoint is taken under a running transaction: the log that its record will refer to is
/// kept.
pub proof fn no_checkpoint_while_running(
    has_log: bool,
    running: nat,
    finished: u64,
    every: u64,
    next_checkpoint: u64,
)
    requires
        running > 0,
    ensures
        !checkpoint_wanted(has_log, running, finished, every, next_checkpoint),
{
}

} // verus!
