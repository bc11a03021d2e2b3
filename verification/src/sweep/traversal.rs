//! The loop of a sweep's thread: look for a snapshot, sample an atom, offer it.
use vstd::prelude::*;

use crate::sweep::registry::{AtomCandidate, CandidateView, ProcessId};

verus! {

/// What a thread does next.
#[derive(Clone, Copy, Debug, PartialEq, Eq, Structural)]
pub enum SampleAction {
    /// Stop.
    Exit,
    /// Wait so many milliseconds, then look for shutdown and for the latest snapshot.
    Look(u64),
    /// Sample an atom of the current snapshot; where `reset` is set, tell the engine first that
    /// the snapshot has changed.
    Sample { reset: bool },
    /// Wait so many milliseconds, then offer the pending candidate.
    Offer(u64),
}

/// What came of an offer.
#[derive(Clone, Copy, Debug, PartialEq, Eq, Structural)]
pub enum OfferAnswer {
    /// Shutdown was requested; nothing was sent.
    Stopped,
    Sent,
    /// The queue is full.
    Full,
    /// Nobody receives any more.
    Disconnected,
}

/// The state of a sweep's thread.
pub struct Traversal {
    id: ProcessId,
    version: Option<u64>,
    pending: Option<AtomCandidate>,
}

impl Traversal {
    /// The name of the process.
    pub closed spec fn process(&self) -> Seq<char> {
        self.id.0@
    }

    /// The version of the current snapshot.
    pub closed spec fn current(&self) -> Option<u64> {
        self.version
    }

    /// The candidate that is being offered.
    pub closed spec fn offering(&self) -> Option<CandidateView> {
        match self.pending {
            Some(c) => Some(c@),
            None => None,
        }
    }

    /// A thread that has seen no snapshot.
    pub fn new(id: ProcessId) -> (r: Self)
        ensures
            r.process() == id.0@,
            r.current() is None,
            r.offering() is None,
    {
        Traversal { id, version: None, pending: None }
    }

    /// The candidate to offer.
    pub fn pending(&self) -> (r: Option<&AtomCandidate>)
        ensures
            match r {
                Some(c) => self.offering() == Some(c@),
                None => self.offering() is None,
            },
    {
        match &self.pending {
            Some(c) => Some(c),
            None => None,
        }
    }

    /// The thread has looked. Shutdown ends it. A snapshot of another version becomes the current
    /// one, and the engine has to know. Without any snapshot there is nothing to sample yet.
    pub fn looked(&mut self, shutdown: bool, latest: Option<u64>) -> (r: SampleAction)
        ensures
            final(self).process() == old(self).process(),
            final(self).offering() == old(self).offering(),
            if shutdown {
                r == SampleAction::Exit && final(self).current() == old(self).current()
            } else {
                match latest {
                    Some(v) => r == (SampleAction::Sample { reset: old(self).current() != Some(v) })
                        && final(self).current() == Some(v),
                    None => final(self).current() == old(self).current() && r == match old(
                        self,
                    ).current() {
                        Some(_) => (SampleAction::Sample { reset: false }),
                        None => SampleAction::Look(10),
                    },
                }
            },
    {
        if shutdown {
            return SampleAction::Exit;
        }
        match latest {
            Some(v) => {
                let reset: bool = match self.version {
                    Some(w) => w != v,
                    None => true,
                };
                self.version = Some(v);
                SampleAction::Sample { reset }
            },
            None => match self.version {
                Some(_) => SampleAction::Sample { reset: false },
                None => SampleAction::Look(10),
            },
        }
    }

    /// The engine has sampled. An atom becomes a candidate of the current snapshot; where sampling
    /// failed, the thread waits a little.
    pub fn sampled(&mut self, sample: Option<Vec<u8>>) -> (r: SampleAction)
        requires
            old(self).current() is Some,
            old(self).offering() is None,
        ensures
            final(self).process() == old(self).process(),
            final(self).current() == old(self).current(),
            match sample {
                Some(path) => r == SampleAction::Offer(0) && final(self).offering() == Some(
                    CandidateView {
                        process: old(self).process(),
                        path: path@,
                        version: old(self).current()->0,
                    },
                ),
                None => r == SampleAction::Look(10) && final(self).offering() is None,
            },
    {
        match (sample, self.version) {
            (Some(path), Some(v)) => {
                self.pending = Some(
                    AtomCandidate {
                        process_id: ProcessId(self.id.0.as_str().to_owned()),
                        path,
                        snapshot_version: v,
                    },
                );
                SampleAction::Offer(0)
            },
            _ => SampleAction::Look(10),
        }
    }

    /// The candidate has been offered. Only a full queue lets the thread try again; then the
    /// candidate stays as it is.
    pub fn offered(&mut self, answer: OfferAnswer) -> (r: SampleAction)
        ensures
            final(self).process() == old(self).process(),
            final(self).current() == old(self).current(),
            if answer == OfferAnswer::Full {
                r == SampleAction::Offer(5) && final(self).offering() == old(self).offering()
            } else {
                r == SampleAction::Look(0) && final(self).offering() is None
            },
    {
        match answer {
            OfferAnswer::Full => SampleAction::Offer(5),
            _ => {
                self.pending = None;
                SampleAction::Look(0)
            },
        }
    }
}

} // verus!
