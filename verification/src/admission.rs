//! Admission: how much may be in flight at the HTTP boundary.
use vstd::prelude::*;

verus! {

/// The budgets of the HTTP boundary and what is left of them.
pub struct AdmissionController {
    max_body_bytes: usize,
    max_inflight: usize,
    max_sse_subs: usize,
    inflight: usize,
    sse_subs: usize,
    delta_subs: usize,
}

/// The mathematical value of an `AdmissionController`.
pub ghost struct AdmissionView {
    pub max_body_bytes: usize,
    pub max_inflight: usize,
    pub max_sse_subs: usize,
    /// Requests that are being served.
    pub inflight: usize,
    /// Subscribers that are connected.
    pub sse_subs: usize,
    /// Those of them that want deltas.
    pub delta_subs: usize,
}

/// The right to run one request. It carries the size limit of the request's body.
pub struct RunPermit {
    max_body_bytes: usize,
}

/// The right to be one subscriber.
pub struct SsePermit {
    delta: bool,
}

impl RunPermit {
    pub closed spec fn limit(&self) -> usize {
        self.max_body_bytes
    }

    /// The largest body that may be read.
    pub fn max_body_bytes(&self) -> (r: usize)
        ensures
            r == self.limit(),
    {
        self.max_body_bytes
    }
}

impl SsePermit {
    pub closed spec fn wants_deltas(&self) -> bool {
        self.delta
    }
}

impl AdmissionController {
    pub closed spec fn view(&self) -> AdmissionView {
        AdmissionView {
            max_body_bytes: self.max_body_bytes,
            max_inflight: self.max_inflight,
            max_sse_subs: self.max_sse_subs,
            inflight: self.inflight,
            sse_subs: self.sse_subs,
            delta_subs: self.delta_subs,
        }
    }

    /// No budget is ever exceeded.
    #[verifier::type_invariant]
    pub closed spec fn well_formed(self) -> bool {
        self.inflight <= self.max_inflight && self.delta_subs <= self.sse_subs && self.sse_subs
            <= self.max_sse_subs
    }

    /// Budgets, with nothing used of them.
    pub fn new(max_body_bytes: usize, max_inflight: usize, max_sse_subs: usize) -> (r: Self)
        ensures
            r@ == (AdmissionView {
                max_body_bytes,
                max_inflight,
                max_sse_subs,
                inflight: 0,
                sse_subs: 0,
                delta_subs: 0,
            }),
    {
        AdmissionController {
            max_body_bytes,
            max_inflight,
            max_sse_subs,
            inflight: 0,
            sse_subs: 0,
            delta_subs: 0,
        }
    }

    /// Admits a request, or refuses it at once where the server is at capacity.
    pub fn acquire_run(&mut self) -> (r: Option<RunPermit>)
        ensures
            match r {
                Some(p) => old(self)@.inflight < old(self)@.max_inflight && final(self)@ == (
                AdmissionView { inflight: (old(self)@.inflight + 1) as usize, ..old(self)@ })
                    && p.limit() == old(self)@.max_body_bytes,
                None => old(self)@.inflight >= old(self)@.max_inflight && final(self)@ == old(
                    self,
                )@,
            },
            final(self)@.inflight <= final(self)@.max_inflight,
    {
        proof {
            use_type_invariant(&*self);
        }
        if self.inflight < self.max_inflight {
            self.inflight = self.inflight + 1;
            Some(RunPermit { max_body_bytes: self.max_body_bytes })
        } else {
            None
        }
    }

    /// A request has been answered.
    pub fn release_run(&mut self, permit: RunPermit)
        requires
            old(self)@.inflight > 0,
        ensures
            final(self)@ == (AdmissionView {
                inflight: (old(self)@.inflight - 1) as usize,
                ..old(self)@
            }),
    {
        proof {
            use_type_invariant(&*self);
        }
        self.inflight = self.inflight - 1;
    }

    /// Admits a subscriber, or refuses it at once where the server is at capacity.
    pub fn acquire_sse(&mut self) -> (r: Option<SsePermit>)
        ensures
            match r {
                Some(p) => old(self)@.sse_subs < old(self)@.max_sse_subs && final(self)@ == (
                AdmissionView { sse_subs: (old(self)@.sse_subs + 1) as usize, ..old(self)@ })
                    && !p.wants_deltas(),
                None => old(self)@.sse_subs >= old(self)@.max_sse_subs && final(self)@ == old(
                    self,
                )@,
            },
            final(self)@.sse_subs <= final(self)@.max_sse_subs,
    {
        proof {
            use_type_invariant(&*self);
        }
        if self.sse_subs < self.max_sse_subs {
            self.sse_subs = self.sse_subs + 1;
            Some(SsePermit { delta: false })
        } else {
            None
        }
    }

    /// Marks a subscriber as one that wants deltas.
    pub fn with_deltas(&mut self, permit: SsePermit) -> (r: SsePermit)
        requires
            !permit.wants_deltas(),
            old(self)@.delta_subs < old(self)@.sse_subs,
        ensures
            r.wants_deltas(),
            final(self)@ == (AdmissionView {
                delta_subs: (old(self)@.delta_subs + 1) as usize,
                ..old(self)@
            }),
    {
        proof {
            use_type_invariant(&*self);
        }
        self.delta_subs = self.delta_subs + 1;
        SsePermit { delta: true }
    }

    /// A subscriber has disconnected.
    pub fn release_sse(&mut self, permit: SsePermit)
        requires
            old(self)@.sse_subs > 0,
            permit.wants_deltas() ==> old(self)@.delta_subs > 0,
            !permit.wants_deltas() ==> old(self)@.delta_subs < old(self)@.sse_subs,
        ensures
            final(self)@ == (AdmissionView {
                sse_subs: (old(self)@.sse_subs - 1) as usize,
                delta_subs: if permit.wants_deltas() {
                    (old(self)@.delta_subs - 1) as usize
                } else {
                    old(self)@.delta_subs
                },
                ..old(self)@
            }),
    {
        proof {
            use_type_invariant(&*self);
        }
        if permit.delta {
            self.delta_subs = self.delta_subs - 1;
        }
        self.sse_subs = self.sse_subs - 1;
    }

    /// The number of subscribers that want deltas.
    pub fn delta_sub_count(&self) -> (r: usize)
        ensures
            r == self@.delta_subs,
    {
        self.delta_subs
    }
}

} // verus!
