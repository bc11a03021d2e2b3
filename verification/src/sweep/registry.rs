//! The registry of sweeps: processes, controllers, and the candidates that wait for them.
use vstd::prelude::*;

use crate::paths::PathMap;
use crate::sweep::strategy::{build_strategy, strategy_of, Strategy};
use crate::table::{row_names, Table};
use crate::text::{concat, dec_text, lemma_dec_text_value, u64_text};

verus! {

/// The path of an atom.
pub type AtomPosition = Vec<u8>;

/// Settings of the sweeps.
#[derive(Default)]
pub struct WeightedAtomSweepSettings {}

/// The name of a process.
#[derive(Clone, Debug, Eq, PartialEq, Hash)]
pub struct ProcessId(pub String);

/// An atom that an engine sampled.
#[derive(Clone, Debug)]
pub struct AtomCandidate {
    pub process_id: ProcessId,
    pub path: Vec<u8>,
    /// The version of the snapshot that it was sampled from.
    pub snapshot_version: u64,
}

/// The mathematical value of an `AtomCandidate`.
pub ghost struct CandidateView {
    pub process: Seq<char>,
    pub path: Seq<u8>,
    pub version: u64,
}

impl AtomCandidate {
    pub open spec fn view(&self) -> CandidateView {
        CandidateView {
            process: self.process_id.0@,
            path: self.path@,
            version: self.snapshot_version,
        }
    }

    /// A copy of the candidate.
    pub fn copy(&self) -> (r: Self)
        ensures
            r@ == self@,
    {
        AtomCandidate {
            process_id: ProcessId(self.process_id.0.as_str().to_owned()),
            path: crate::paths::copy_path(&self.path),
            snapshot_version: self.snapshot_version,
        }
    }
}

pub open spec fn candidate_views(cs: Seq<AtomCandidate>) -> Seq<CandidateView> {
    cs.map_values(|c: AtomCandidate| c@)
}

/// What became of the candidates.
#[derive(Clone, Copy, Debug, Eq, PartialEq, Structural)]
pub struct SweepMetrics {
    pub candidates_consumed: u64,
    pub stale_version_candidates: u64,
    pub missing_path_candidates: u64,
}

impl Default for SweepMetrics {
    fn default() -> (r: Self)
        ensures
            r == (SweepMetrics {
                candidates_consumed: 0,
                stale_version_candidates: 0,
                missing_path_candidates: 0,
            }),
    {
        SweepMetrics {
            candidates_consumed: 0,
            stale_version_candidates: 0,
            missing_path_candidates: 0,
        }
    }
}

/// Whether the counters can still count `n` candidates.
pub open spec fn can_count(m: SweepMetrics, n: nat) -> bool {
    &&& m.candidates_consumed + n <= u64::MAX
    &&& m.stale_version_candidates + n <= u64::MAX
    &&& m.missing_path_candidates + n <= u64::MAX
}

/// A registered process: its engine and its name.
pub struct SweepProcess {
    pub id: ProcessId,
    pub engine: Strategy,
}

impl SweepProcess {
    /// A process with an engine.
    pub fn new(id: ProcessId, engine: Strategy) -> (r: Self)
        ensures
            r.id == id,
            r.engine == engine,
    {
        SweepProcess { id, engine }
    }
}

/// A running sweep.
#[derive(Clone, Copy, Debug, PartialEq, Eq, Structural)]
pub struct SweepController {
    /// The number of its threads.
    pub threads: usize,
    /// The version of the latest snapshot that its threads were given.
    pub latest: Option<u64>,
}

impl SweepController {
    /// The number of threads.
    pub fn thread_count(&self) -> (r: usize)
        ensures
            r == self.threads,
    {
        self.threads
    }

    /// Gives the threads a snapshot in place of the one before.
    pub fn publish(&mut self, version: u64)
        ensures
            *final(self) == (SweepController { latest: Some(version), ..*old(self) }),
    {
        self.latest = Some(version);
    }
}

/// The running sweeps by name.
pub struct Controllers {
    table: Table<SweepController>,
    next_id: usize,
}

/// The name of the `k`-th sweep.
pub open spec fn sweep_name(k: nat) -> Seq<char> {
    "sweep-"@ + dec_text(k)
}

/// No two sweeps have the same name.
pub proof fn sweep_names_differ(j: nat, k: nat)
    requires
        sweep_name(j) == sweep_name(k),
    ensures
        j == k,
{
    let n = "sweep-"@.len() as int;
    assert(sweep_name(j).skip(n) =~= dec_text(j));
    assert(sweep_name(k).skip(n) =~= dec_text(k));
    lemma_dec_text_value(j);
    lemma_dec_text_value(k);
}

impl Controllers {
    pub closed spec fn view(&self) -> Map<Seq<char>, SweepController> {
        self.table@
    }

    /// How many sweeps were started so far.
    pub closed spec fn started(&self) -> usize {
        self.next_id
    }

    /// Every name is that of an earlier start.
    #[verifier::type_invariant]
    closed spec fn well_formed(self) -> bool {
        forall|name: Seq<char>| #[trigger]
            self.table@.contains_key(name) ==> exists|k: nat|
                k < self.next_id && name == #[trigger] sweep_name(k)
    }

    /// No sweep.
    pub fn new() -> (r: Self)
        ensures
            r@ == Map::<Seq<char>, SweepController>::empty(),
            r.started() == 0,
    {
        Controllers { table: Table::new(), next_id: 0 }
    }

    /// The number of running sweeps.
    pub fn len(&self) -> (r: usize)
        ensures
            r == self@.dom().len(),
            self@.dom().finite(),
    {
        proof {
            use_type_invariant(&self.table);
            self.table.lemma_rows();
            let names = row_names(self.table.rows());
            assert(names.no_duplicates()) by {
                assert forall|i: int, j: int| 0 <= i < j < names.len() implies names[i]
                    != names[j] by {
                    assert(names[i] == self.table.rows()[i].0@);
                    assert(names[j] == self.table.rows()[j].0@);
                }
            }
            names.unique_seq_to_set();
            assert(self@.dom() =~= names.to_set());
        }
        self.table.len()
    }

    /// Whether a sweep is running.
    pub fn contains_key(&self, name: &str) -> (r: bool)
        ensures
            r == self@.contains_key(name@),
    {
        self.table.contains(name)
    }

    /// A running sweep.
    pub fn get(&self, name: &str) -> (r: Option<SweepController>)
        ensures
            match r {
                Some(c) => self@.contains_key(name@) && self@[name@] == c,
                None => !self@.contains_key(name@),
            },
    {
        match self.table.get(name) {
            Some(c) => Some(*c),
            None => None,
        }
    }

    /// Starts a sweep under a new name.
    pub fn start(&mut self, threads: usize) -> (r: String)
        requires
            old(self).started() < usize::MAX,
        ensures
            r@ == sweep_name(old(self).started() as nat),
            !old(self)@.contains_key(r@),
            final(self)@ == old(self)@.insert(r@, SweepController { threads, latest: None }),
            final(self).started() == old(self).started() + 1,
    {
        proof {
            use_type_invariant(&*self);
        }
        let id: usize = self.next_id;
        let name = concat("sweep-", u64_text(id as u64).as_str());
        let mut table: Table<SweepController> = Table::new();
        std::mem::swap(&mut table, &mut self.table);
        let ghost before = table@;
        proof {
            if before.contains_key(name@) {
                let k = choose|k: nat| k < id && name@ == #[trigger] sweep_name(k);
                sweep_names_differ(k, id as nat);
            }
        }
        let _ = table.insert(name.as_str().to_owned(), SweepController { threads, latest: None });
        self.next_id = id + 1;
        proof {
            assert forall|x: Seq<char>| #[trigger] table@.contains_key(x) implies exists|k: nat|
                k < id + 1 && x == #[trigger] sweep_name(k) by {
                if before.contains_key(x) {
                    let k = choose|k: nat| k < id && x == #[trigger] sweep_name(k);
                    assert(k < id + 1 && x == sweep_name(k));
                } else {
                    assert(x == sweep_name(id as nat));
                }
            }
        }
        self.table = table;
        name
    }

    /// Ends a sweep, if it is running.
    pub fn remove(&mut self, name: &str) -> (r: Option<SweepController>)
        ensures
            final(self)@ == old(self)@.remove(name@),
            final(self).started() == old(self).started(),
            match r {
                Some(c) => old(self)@.contains_key(name@) && old(self)@[name@] == c,
                None => !old(self)@.contains_key(name@),
            },
    {
        proof {
            use_type_invariant(&*self);
        }
        let mut table: Table<SweepController> = Table::new();
        std::mem::swap(&mut table, &mut self.table);
        let r = table.remove(name);
        self.table = table;
        r
    }

    /// Ends every sweep.
    pub fn clear(&mut self)
        ensures
            final(self)@ == Map::<Seq<char>, SweepController>::empty(),
            final(self).started() == old(self).started(),
    {
        self.table = Table::new();
    }

    /// Gives every sweep a snapshot.
    pub fn publish(&mut self, version: u64)
        ensures
            final(self)@ == old(self)@.map_values(
                |c: SweepController| SweepController { latest: Some(version), ..c },
            ),
            final(self).started() == old(self).started(),
    {
        proof {
            use_type_invariant(&*self);
            use_type_invariant(&self.table);
            self.table.lemma_rows();
        }
        let ghost before = self.table@;
        let ghost rows = self.table.rows();
        let ghost given = |c: SweepController| SweepController { latest: Some(version), ..c };
        let mut table: Table<SweepController> = Table::new();
        let mut i: usize = 0;
        while i < self.table.len()
            invariant
                i <= rows.len(),
                rows == self.table.rows(),
                before == self.table@,
                given == (|c: SweepController| SweepController { latest: Some(version), ..c }),
                forall|name: Seq<char>| #[trigger]
                    before.contains_key(name) <==> row_names(rows).contains(name),
                forall|k: int|
                    0 <= k < rows.len() ==> before.contains_key((#[trigger] rows[k]).0@)
                        && before[rows[k].0@] == rows[k].1,
                forall|name: Seq<char>| #[trigger]
                    table@.contains_key(name) ==> before.contains_key(name) && table@[name]
                        == given(before[name]),
                forall|k: int| 0 <= k < i ==> table@.contains_key((#[trigger] rows[k]).0@),
            decreases rows.len() - i,
        {
            let row = self.table.row(i);
            let mut c: SweepController = row.1;
            c.publish(version);
            let _ = table.insert(row.0.as_str().to_owned(), c);
            i = i + 1;
        }
        proof {
            assert forall|name: Seq<char>| before.contains_key(name) implies table@.contains_key(
                name,
            ) by {
                let names = row_names(rows);
                assert(names.contains(name));
                let k = choose|k: int| 0 <= k < names.len() && names[k] == name;
                assert(rows[k].0@ == name);
            }
            assert(table@ =~= before.map_values(given));
        }
        self.table = table;
    }
}

/// How many candidates of one process can wait.
pub const CANDIDATE_BUFFER_CAPACITY: usize = 1000;

pub type Buffers = Map<Seq<char>, Seq<CandidateView>>;

/// The candidates of a process.
pub open spec fn waiting(bs: Buffers, process: Seq<char>) -> Seq<CandidateView> {
    if bs.contains_key(process) {
        bs[process]
    } else {
        seq![]
    }
}

/// A candidate joins those of its process; where these are at capacity, the oldest one leaves.
pub open spec fn joined(bs: Buffers, c: CandidateView) -> Buffers {
    let b = waiting(bs, c.process);
    bs.insert(
        c.process,
        (if b.len() == CANDIDATE_BUFFER_CAPACITY {
            b.drop_first()
        } else {
            b
        }).push(c),
    )
}

pub open spec fn joined_all(bs: Buffers, cs: Seq<CandidateView>) -> Buffers
    decreases cs.len(),
{
    if cs.len() == 0 {
        bs
    } else {
        joined(joined_all(bs, cs.drop_last()), cs.last())
    }
}

/// What is taken from the front of the waiting candidates: the first one of the snapshot whose
/// path still exists, those before it counted by what was wrong with them.
pub ghost struct Taken {
    pub found: Option<CandidateView>,
    pub rest: Seq<CandidateView>,
    pub stale: nat,
    pub missing: nat,
}

pub open spec fn take_existing(
    b: Seq<CandidateView>,
    live: Map<Seq<u8>, u64>,
    version: u64,
) -> Taken
    decreases b.len(),
{
    if b.len() == 0 {
        Taken { found: None, rest: b, stale: 0, missing: 0 }
    } else if b[0].version != version {
        let t = take_existing(b.drop_first(), live, version);
        Taken { stale: t.stale + 1, ..t }
    } else if live.contains_key(b[0].path) {
        Taken { found: Some(b[0]), rest: b.drop_first(), stale: 0, missing: 0 }
    } else {
        let t = take_existing(b.drop_first(), live, version);
        Taken { missing: t.missing + 1, ..t }
    }
}

/// The counters after a taking.
pub open spec fn counted(m: SweepMetrics, t: Taken) -> SweepMetrics {
    SweepMetrics {
        candidates_consumed: (m.candidates_consumed + if t.found is Some {
            1int
        } else {
            0
        }) as u64,
        stale_version_candidates: (m.stale_version_candidates + t.stale) as u64,
        missing_path_candidates: (m.missing_path_candidates + t.missing) as u64,
    }
}

/// Nothing is lost: what is taken, passed over and left is what was waiting.
pub proof fn taking_counts_every_candidate(
    b: Seq<CandidateView>,
    live: Map<Seq<u8>, u64>,
    version: u64,
)
    ensures
        ({
            let t = take_existing(b, live, version);
            &&& t.stale + t.missing + (if t.found is Some {
                1int
            } else {
                0
            }) + t.rest.len() == b.len()
            &&& t.found is None ==> t.rest.len() == 0
            &&& t.rest == b.skip(b.len() - t.rest.len())
            &&& t.found matches Some(c) ==> c.version == version && live.contains_key(c.path)
                && b.contains(c)
        }),
    decreases b.len(),
{
    if b.len() > 0 {
        let d = b.drop_first();
        taking_counts_every_candidate(d, live, version);
        let t = take_existing(d, live, version);
        assert(b.contains(b[0]));
        if let Some(c) = t.found {
            let k = choose|k: int| 0 <= k < d.len() && d[k] == c;
            assert(b[k + 1] == c);
        }
        assert(d.skip(d.len() - t.rest.len()) =~= b.skip(b.len() - t.rest.len()));
        assert(b.skip(1) =~= d);
    } else {
        assert(b.skip(0) =~= b);
    }
}

/// The candidates of one snapshot.
pub open spec fn of_version(b: Seq<CandidateView>, version: u64) -> Seq<CandidateView>
    decreases b.len(),
{
    if b.len() == 0 {
        b
    } else if b.last().version == version {
        of_version(b.drop_last(), version).push(b.last())
    } else {
        of_version(b.drop_last(), version)
    }
}

/// How many candidates in the first `n` rows are of other snapshots.
pub open spec fn obsolete_in(
    rows: Seq<(String, Vec<AtomCandidate>)>,
    version: u64,
    n: int,
) -> nat
    decreases n,
{
    if n <= 0 || n > rows.len() {
        0
    } else {
        obsolete_in(rows, version, n - 1) + (candidate_views(rows[n - 1].1@).len() - of_version(
            candidate_views(rows[n - 1].1@),
            version,
        ).len()) as nat
    }
}

/// How many of the first `n` reserved candidates are of other snapshots.
pub open spec fn obsolete_selected(
    rows: Seq<(String, AtomCandidate)>,
    version: u64,
    n: int,
) -> nat
    decreases n,
{
    if n <= 0 || n > rows.len() {
        0
    } else {
        obsolete_selected(rows, version, n - 1) + if rows[n - 1].1@.version != version {
            1nat
        } else {
            0
        }
    }
}

/// The sweeps and the candidates that wait to be consumed.
pub struct WeightedAtomSweep {
    pub processes: Table<SweepProcess>,
    pub settings: WeightedAtomSweepSettings,
    pub controllers: Controllers,
    pub candidate_buffers: Table<Vec<AtomCandidate>>,
    pub selected_candidates: Table<AtomCandidate>,
    pub metrics: SweepMetrics,
}

/// The candidates in the buffers of a table.
pub open spec fn buffers_view(t: Map<Seq<char>, Vec<AtomCandidate>>) -> Buffers {
    t.map_values(|b: Vec<AtomCandidate>| candidate_views(b@))
}

pub open spec fn selected_view(t: Map<Seq<char>, AtomCandidate>) -> Map<Seq<char>, CandidateView> {
    t.map_values(|c: AtomCandidate| c@)
}

impl WeightedAtomSweep {
    pub open spec fn buffers(&self) -> Buffers {
        buffers_view(self.candidate_buffers@)
    }

    pub open spec fn selected(&self) -> Map<Seq<char>, CandidateView> {
        selected_view(self.selected_candidates@)
    }

    /// Whether nothing but the candidates and the counters differs.
    pub open spec fn same_sweeps(&self, other: &Self) -> bool {
        &&& self.processes == other.processes
        &&& self.settings == other.settings
        &&& self.controllers == other.controllers
    }

    /// An empty registry.
    pub fn new(settings: WeightedAtomSweepSettings) -> (r: Self)
        ensures
            r.settings == settings,
            r.processes@ == Map::<Seq<char>, SweepProcess>::empty(),
            r.processes.rows().len() == 0,
            r.controllers@ == Map::<Seq<char>, SweepController>::empty(),
            r.controllers.started() == 0,
            r.buffers() == Map::<Seq<char>, Seq<CandidateView>>::empty(),
            r.candidate_buffers.rows().len() == 0,
            r.selected() == Map::<Seq<char>, CandidateView>::empty(),
            r.selected_candidates.rows().len() == 0,
            r.metrics == (SweepMetrics {
                candidates_consumed: 0,
                stale_version_candidates: 0,
                missing_path_candidates: 0,
            }),
    {
        let r = WeightedAtomSweep {
            processes: Table::new(),
            settings,
            controllers: Controllers::new(),
            candidate_buffers: Table::new(),
            selected_candidates: Table::new(),
            metrics: SweepMetrics {
                candidates_consumed: 0,
                stale_version_candidates: 0,
                missing_path_candidates: 0,
            },
        };
        assert(r.buffers() =~= Map::<Seq<char>, Seq<CandidateView>>::empty());
        assert(r.selected() =~= Map::<Seq<char>, CandidateView>::empty());
        r
    }

    /// Registers a process with an engine that exists; one of the same name is replaced.
    pub fn add_engine(&mut self, name: &str, strategy_key: &str)
        requires
            strategy_of(strategy_key@) is Some,
        ensures
            final(self).processes@.dom() == old(self).processes@.dom().insert(name@),
            final(self).processes@[name@].id.0@ == name@,
            Some(final(self).processes@[name@].engine) == strategy_of(strategy_key@),
            forall|other: Seq<char>|
                other != name@ && old(self).processes@.contains_key(other)
                    ==> #[trigger] final(self).processes@[other] == old(self).processes@[other],
            row_names(final(self).processes.rows()) == if old(self).processes@.contains_key(name@) {
                row_names(old(self).processes.rows())
            } else {
                row_names(old(self).processes.rows()).push(name@)
            },
            *final(self) == (WeightedAtomSweep { processes: final(self).processes, ..*old(self) }),
    {
        match build_strategy(strategy_key) {
            Some(engine) => {
                let process = SweepProcess::new(ProcessId(name.to_owned()), engine);
                let _ = self.processes.insert(name.to_owned(), process);
                assert(self.processes@.dom() =~= old(self).processes@.dom().insert(name@));
            },
            None => {},
        }
    }

    /// The number of registered processes.
    pub fn process_count(&self) -> (r: usize)
        ensures
            r == self.processes.rows().len(),
    {
        self.processes.len()
    }

    /// A registered process.
    pub fn get_process(&self, name: &str) -> (r: Option<&SweepProcess>)
        ensures
            match r {
                Some(p) => self.processes@.contains_key(name@) && self.processes@[name@] == *p,
                None => !self.processes@.contains_key(name@),
            },
    {
        self.processes.get(name)
    }

    /// Puts candidates that have arrived into the buffers of their processes.
    pub fn buffer_candidates(&mut self, received: &Vec<AtomCandidate>)
        ensures
            final(self).buffers() == joined_all(old(self).buffers(), candidate_views(received@)),
            final(self).selected_candidates == old(self).selected_candidates,
            final(self).metrics == old(self).metrics,
            final(self).same_sweeps(old(self)),
    {
        let ghost cs = candidate_views(received@);
        let ghost start = self.buffers();
        let mut i: usize = 0;
        assert(cs.take(0) =~= seq![]);
        while i < received.len()
            invariant
                i <= received@.len(),
                cs == candidate_views(received@),
                self.buffers() == joined_all(start, cs.take(i as int)),
                self.selected_candidates == old(self).selected_candidates,
                self.metrics == old(self).metrics,
                self.same_sweeps(old(self)),
            decreases received@.len() - i,
        {
            proof {
                assert(cs.take(i + 1).drop_last() =~= cs.take(i as int));
                assert(cs.take(i + 1).last() == received@[i as int]@);
            }
            self.buffer_one(received[i].copy());
            i = i + 1;
        }
        assert(cs.take(i as int) =~= cs);
    }

    fn buffer_one(&mut self, c: AtomCandidate)
        ensures
            final(self).buffers() == joined(old(self).buffers(), c@),
            final(self).selected_candidates == old(self).selected_candidates,
            final(self).metrics == old(self).metrics,
            final(self).same_sweeps(old(self)),
    {
        let ghost bs = self.buffers();
        let ghost b = waiting(bs, c@.process);
        let name: String = c.process_id.0.as_str().to_owned();
        let mut buffer: Vec<AtomCandidate> = match self.candidate_buffers.remove(name.as_str()) {
            Some(b) => b,
            None => Vec::new(),
        };
        assert(candidate_views(buffer@) =~= b);
        if buffer.len() == CANDIDATE_BUFFER_CAPACITY {
            let _ = buffer.remove(0);
            assert(candidate_views(buffer@) =~= b.drop_first());
        }
        let ghost kept = candidate_views(buffer@);
        buffer.push(c);
        assert(candidate_views(buffer@) =~= kept.push(c@));
        let _ = self.candidate_buffers.insert(name, buffer);
        assert(self.buffers() =~= joined(bs, c@));
    }

    /// Takes the oldest waiting candidate of a process.
    pub fn pop_candidate(&mut self, process_id: &ProcessId) -> (r: Option<AtomCandidate>)
        ensures
            ({
                let b = waiting(old(self).buffers(), process_id.0@);
                match r {
                    Some(c) => b.len() > 0 && c@ == b[0] && final(self).buffers() == old(
                        self,
                    ).buffers().insert(process_id.0@, b.drop_first()),
                    None => b.len() == 0 && final(self).buffers() == old(self).buffers(),
                }
            }),
            final(self).selected_candidates == old(self).selected_candidates,
            final(self).metrics == old(self).metrics,
            final(self).same_sweeps(old(self)),
    {
        let ghost bs = self.buffers();
        let mut buffer: Vec<AtomCandidate> = match self.candidate_buffers.remove(
            process_id.0.as_str(),
        ) {
            Some(b) => b,
            None => {
                assert(self.buffers() =~= bs);
                return None;
            },
        };
        let ghost b = candidate_views(buffer@);
        let mut r: Option<AtomCandidate> = None;
        if buffer.len() > 0 {
            r = Some(buffer.remove(0));
            assert(candidate_views(buffer@) =~= b.drop_first());
        }
        let ghost rest = candidate_views(buffer@);
        let _ = self.candidate_buffers.insert(process_id.0.as_str().to_owned(), buffer);
        assert(self.buffers() =~= bs.insert(process_id.0@, rest));
        if r.is_none() {
            assert(self.buffers() =~= bs);
        }
        r
    }

    /// Consumes the next candidate of a process that belongs to the snapshot and whose path still
    /// exists in the live map.
    pub fn pop_existing_candidate(
        &mut self,
        process_id: &ProcessId,
        live_map: &PathMap<u64>,
        snapshot_version: u64,
    ) -> (r: Option<AtomCandidate>)
        requires
            can_count(
                old(self).metrics,
                waiting(old(self).buffers(), process_id.0@).len(),
            ),
        ensures
            ({
                let b = waiting(old(self).buffers(), process_id.0@);
                let t = take_existing(b, live_map@, snapshot_version);
                &&& match r {
                    Some(c) => t.found == Some(c@),
                    None => t.found is None,
                }
                &&& final(self).buffers() == if old(self).buffers().contains_key(process_id.0@) {
                    old(self).buffers().insert(process_id.0@, t.rest)
                } else {
                    old(self).buffers()
                }
                &&& final(self).metrics == counted(old(self).metrics, t)
            }),
            final(self).selected_candidates == old(self).selected_candidates,
            final(self).same_sweeps(old(self)),
    {
        let ghost bs = self.buffers();
        let ghost m = self.metrics;
        let ghost p = process_id.0@;
        let ghost b = waiting(bs, p);
        let ghost whole = take_existing(b, live_map@, snapshot_version);
        let ghost mut left = b;
        let ghost mut stale: nat = 0;
        let ghost mut missing: nat = 0;
        proof {
            if bs.contains_key(p) {
                assert(bs.insert(p, b) =~= bs);
            }
        }
        loop
            invariant
                p == process_id.0@,
                left == waiting(self.buffers(), p),
                self.buffers() == if bs.contains_key(p) {
                    bs.insert(p, left)
                } else {
                    bs
                },
                !bs.contains_key(p) ==> left.len() == 0,
                whole == take_existing(b, live_map@, snapshot_version),
                ({
                    let t = take_existing(left, live_map@, snapshot_version);
                    whole.found == t.found && whole.rest == t.rest && whole.stale == stale + t.stale
                        && whole.missing == missing + t.missing
                }),
                can_count(m, b.len()),
                stale + missing + left.len() == b.len(),
                self.metrics == (SweepMetrics {
                    candidates_consumed: m.candidates_consumed,
                    stale_version_candidates: (m.stale_version_candidates + stale) as u64,
                    missing_path_candidates: (m.missing_path_candidates + missing) as u64,
                }),
                self.selected_candidates == old(self).selected_candidates,
                self.same_sweeps(old(self)),
                m == old(self).metrics,
                bs == old(self).buffers(),
                b == waiting(bs, p),
            decreases left.len(),
        {
            match self.pop_candidate(process_id) {
                None => return None,
                Some(c) => {
                    proof {
                        assert(c@ == left[0]);
                        if bs.contains_key(p) {
                            assert(bs.insert(p, left).insert(p, left.drop_first()) =~= bs.insert(
                                p,
                                left.drop_first(),
                            ));
                        }
                        left = left.drop_first();
                    }
                    if c.snapshot_version != snapshot_version {
                        self.metrics.stale_version_candidates =
                        self.metrics.stale_version_candidates + 1;
                        proof {
                            stale = stale + 1;
                        }
                        continue;
                    }
                    if live_map.contains(c.path.as_slice()) {
                        self.metrics.candidates_consumed = self.metrics.candidates_consumed + 1;
                        return Some(c);
                    }
                    self.metrics.missing_path_candidates = self.metrics.missing_path_candidates + 1;
                    proof {
                        missing = missing + 1;
                    }
                },
            }
        }
    }

    /// Reserves the next candidate that can be consumed.
    pub fn select_existing_candidate(
        &mut self,
        process_id: &ProcessId,
        live_map: &PathMap<u64>,
        snapshot_version: u64,
    ) -> (r: bool)
        requires
            can_count(
                old(self).metrics,
                waiting(old(self).buffers(), process_id.0@).len(),
            ),
        ensures
            ({
                let b = waiting(old(self).buffers(), process_id.0@);
                let t = take_existing(b, live_map@, snapshot_version);
                &&& r == (t.found is Some)
                &&& final(self).selected() == match t.found {
                    Some(c) => old(self).selected().insert(process_id.0@, c),
                    None => old(self).selected(),
                }
                &&& final(self).buffers() == if old(self).buffers().contains_key(process_id.0@) {
                    old(self).buffers().insert(process_id.0@, t.rest)
                } else {
                    old(self).buffers()
                }
                &&& final(self).metrics == counted(old(self).metrics, t)
            }),
            final(self).same_sweeps(old(self)),
    {
        let ghost sel = self.selected();
        match self.pop_existing_candidate(process_id, live_map, snapshot_version) {
            None => false,
            Some(c) => {
                let ghost view = c@;
                let _ = self.selected_candidates.insert(process_id.0.as_str().to_owned(), c);
                assert(self.selected() =~= sel.insert(process_id.0@, view));
                true
            },
        }
    }

    /// Takes the reserved candidate of a process, if it still belongs to the snapshot and its path
    /// still exists.
    pub fn take_selected_candidate(
        &mut self,
        process_id: &ProcessId,
        live_map: &PathMap<u64>,
        snapshot_version: u64,
    ) -> (r: Option<AtomCandidate>)
        requires
            can_count(old(self).metrics, 1),
        ensures
            final(self).selected() == old(self).selected().remove(process_id.0@),
            final(self).candidate_buffers == old(self).candidate_buffers,
            final(self).same_sweeps(old(self)),
            ({
                let held = old(self).selected().contains_key(process_id.0@);
                let c = old(self).selected()[process_id.0@];
                let m = old(self).metrics;
                if !held {
                    r is None && final(self).metrics == m
                } else if c.version != snapshot_version {
                    r is None && final(self).metrics == (SweepMetrics {
                        stale_version_candidates: (m.stale_version_candidates + 1) as u64,
                        ..m
                    })
                } else if !live_map@.contains_key(c.path) {
                    r is None && final(self).metrics == (SweepMetrics {
                        missing_path_candidates: (m.missing_path_candidates + 1) as u64,
                        ..m
                    })
                } else {
                    (r matches Some(x) && x@ == c) && final(self).metrics == m
                }
            }),
    {
        let ghost sel = self.selected();
        let taken = self.selected_candidates.remove(process_id.0.as_str());
        assert(self.selected() =~= sel.remove(process_id.0@));
        match taken {
            None => None,
            Some(c) => {
                if c.snapshot_version != snapshot_version {
                    self.metrics.stale_version_candidates = self.metrics.stale_version_candidates
                        + 1;
                    return None;
                }
                if !live_map.contains(c.path.as_slice()) {
                    self.metrics.missing_path_candidates = self.metrics.missing_path_candidates + 1;
                    return None;
                }
                Some(c)
            },
        }
    }

    /// Discards the buffered and the reserved candidates of other snapshots.
    pub fn discard_obsolete_candidates(&mut self, snapshot_version: u64)
        requires
            old(self).metrics.stale_version_candidates + obsolete_in(
                old(self).candidate_buffers.rows(),
                snapshot_version,
                old(self).candidate_buffers.rows().len() as int,
            ) + obsolete_selected(
                old(self).selected_candidates.rows(),
                snapshot_version,
                old(self).selected_candidates.rows().len() as int,
            ) <= u64::MAX,
        ensures
            final(self).buffers() == old(self).buffers().map_values(
                |b: Seq<CandidateView>| of_version(b, snapshot_version),
            ),
            forall|p: Seq<char>| #[trigger]
                final(self).selected().contains_key(p) <==> old(self).selected().contains_key(p)
                    && old(self).selected()[p].version == snapshot_version,
            forall|p: Seq<char>| #[trigger]
                final(self).selected().contains_key(p) ==> final(self).selected()[p] == old(
                    self,
                ).selected()[p],
            final(self).metrics == (SweepMetrics {
                stale_version_candidates: (old(self).metrics.stale_version_candidates + obsolete_in(
                    old(self).candidate_buffers.rows(),
                    snapshot_version,
                    old(self).candidate_buffers.rows().len() as int,
                ) + obsolete_selected(
                    old(self).selected_candidates.rows(),
                    snapshot_version,
                    old(self).selected_candidates.rows().len() as int,
                )) as u64,
                ..old(self).metrics
            }),
            final(self).same_sweeps(old(self)),
    {
        let (buffers, dropped) = current_buffers(&self.candidate_buffers, snapshot_version);
        let (selected, released) = current_selected(&self.selected_candidates, snapshot_version);
        self.candidate_buffers = buffers;
        self.selected_candidates = selected;
        self.metrics.stale_version_candidates = self.metrics.stale_version_candidates + dropped
            + released;
    }

    /// Starts all registered processes as one sweep: returns its name and the processes, which the
    /// registry no longer holds.
    pub fn spawn(&mut self) -> (r: (String, Table<SweepProcess>))
        requires
            old(self).controllers.started() < usize::MAX,
        ensures
            r.0@ == sweep_name(old(self).controllers.started() as nat),
            r.1 == old(self).processes,
            final(self).processes@ == Map::<Seq<char>, SweepProcess>::empty(),
            final(self).processes.rows().len() == 0,
            !old(self).controllers@.contains_key(r.0@),
            final(self).controllers@ == old(self).controllers@.insert(
                r.0@,
                SweepController { threads: old(self).processes.rows().len() as usize, latest: None },
            ),
            final(self).controllers.started() == old(self).controllers.started() + 1,
            *final(self) == (WeightedAtomSweep {
                processes: final(self).processes,
                controllers: final(self).controllers,
                ..*old(self)
            }),
    {
        let mut processes: Table<SweepProcess> = Table::new();
        std::mem::swap(&mut processes, &mut self.processes);
        let name = self.controllers.start(processes.len());
        (name, processes)
    }

    /// Gives every sweep a snapshot.
    pub fn publish_snapshot(&mut self, version: u64)
        ensures
            final(self).controllers@ == old(self).controllers@.map_values(
                |c: SweepController| SweepController { latest: Some(version), ..c },
            ),
            final(self).controllers.started() == old(self).controllers.started(),
            *final(self) == (WeightedAtomSweep {
                controllers: final(self).controllers,
                ..*old(self)
            }),
    {
        self.controllers.publish(version);
    }

    /// Ends every sweep.
    pub fn shutdown_all(&mut self)
        ensures
            final(self).controllers@ == Map::<Seq<char>, SweepController>::empty(),
            final(self).controllers.started() == old(self).controllers.started(),
            *final(self) == (WeightedAtomSweep {
                controllers: final(self).controllers,
                ..*old(self)
            }),
    {
        self.controllers.clear();
    }

    /// Ends a sweep, if it is running.
    pub fn shutdown(&mut self, name: &str)
        ensures
            final(self).controllers@ == old(self).controllers@.remove(name@),
            final(self).controllers.started() == old(self).controllers.started(),
            *final(self) == (WeightedAtomSweep {
                controllers: final(self).controllers,
                ..*old(self)
            }),
    {
        let _ = self.controllers.remove(name);
    }
}

/// The candidates of one snapshot, and how many others there are.
fn current_candidates(b: &Vec<AtomCandidate>, version: u64) -> (r: (Vec<AtomCandidate>, u64))
    ensures
        candidate_views(r.0@) == of_version(candidate_views(b@), version),
        r.1 == b@.len() - r.0@.len(),
{
    let ghost view = candidate_views(b@);
    let mut kept: Vec<AtomCandidate> = Vec::new();
    let mut dropped: u64 = 0;
    let mut i: usize = 0;
    assert(candidate_views(kept@) =~= of_version(view.take(0), version));
    while i < b.len()
        invariant
            i <= b@.len(),
            view == candidate_views(b@),
            candidate_views(kept@) == of_version(view.take(i as int), version),
            dropped == i - kept@.len(),
            kept@.len() <= i,
        decreases b@.len() - i,
    {
        proof {
            assert(view.take(i + 1).drop_last() =~= view.take(i as int));
            assert(view.take(i + 1).last() == b@[i as int]@);
        }
        let ghost before = candidate_views(kept@);
        if b[i].snapshot_version == version {
            let c = b[i].copy();
            let ghost added = c@;
            kept.push(c);
            assert(candidate_views(kept@) =~= before.push(added));
        } else {
            dropped = dropped + 1;
        }
        i = i + 1;
    }
    assert(view.take(i as int) =~= view);
    (kept, dropped)
}

proof fn lemma_obsolete_grows(rows: Seq<(String, Vec<AtomCandidate>)>, version: u64, i: int, n: int)
    requires
        0 <= i <= n <= rows.len(),
    ensures
        obsolete_in(rows, version, i) <= obsolete_in(rows, version, n),
    decreases n - i,
{
    if i < n {
        lemma_obsolete_grows(rows, version, i, n - 1);
    }
}

proof fn lemma_released_grows(rows: Seq<(String, AtomCandidate)>, version: u64, i: int, n: int)
    requires
        0 <= i <= n <= rows.len(),
    ensures
        obsolete_selected(rows, version, i) <= obsolete_selected(rows, version, n),
    decreases n - i,
{
    if i < n {
        lemma_released_grows(rows, version, i, n - 1);
    }
}

/// The buffers without the candidates of other snapshots, and how many those are.
fn current_buffers(t: &Table<Vec<AtomCandidate>>, version: u64) -> (r: (
    Table<Vec<AtomCandidate>>,
    u64,
))
    requires
        obsolete_in(t.rows(), version, t.rows().len() as int) <= u64::MAX,
    ensures
        buffers_view(r.0@) == buffers_view(t@).map_values(
            |b: Seq<CandidateView>| of_version(b, version),
        ),
        r.1 == obsolete_in(t.rows(), version, t.rows().len() as int),
{
    proof {
        use_type_invariant(t);
        t.lemma_rows();
    }
    let ghost rows = t.rows();
    let ghost before = t@;
    let mut kept: Table<Vec<AtomCandidate>> = Table::new();
    let mut dropped: u64 = 0;
    let mut i: usize = 0;
    while i < t.len()
        invariant
            i <= rows.len(),
            rows == t.rows(),
            before == t@,
            obsolete_in(rows, version, rows.len() as int) <= u64::MAX,
            dropped == obsolete_in(rows, version, i as int),
            forall|k: int|
                0 <= k < rows.len() ==> before.contains_key((#[trigger] rows[k]).0@)
                    && before[rows[k].0@] == rows[k].1,
            forall|name: Seq<char>| #[trigger]
                kept@.contains_key(name) ==> before.contains_key(name) && candidate_views(
                    kept@[name]@,
                ) == of_version(candidate_views(before[name]@), version),
            forall|k: int| 0 <= k < i ==> kept@.contains_key((#[trigger] rows[k]).0@),
        decreases rows.len() - i,
    {
        let row = t.row(i);
        let (b, n) = current_candidates(&row.1, version);
        proof {
            lemma_obsolete_grows(rows, version, i + 1, rows.len() as int);
            assert(candidate_views(row.1@).len() == row.1@.len());
            assert(candidate_views(b@).len() == b@.len());
        }
        let _ = kept.insert(row.0.as_str().to_owned(), b);
        dropped = dropped + n;
        i = i + 1;
    }
    proof {
        assert forall|name: Seq<char>| before.contains_key(name) implies kept@.contains_key(name) by {
            let names = row_names(rows);
            assert(names.contains(name));
            let k = choose|k: int| 0 <= k < names.len() && names[k] == name;
            assert(rows[k].0@ == name);
        }
        assert(buffers_view(kept@) =~= buffers_view(before).map_values(
            |b: Seq<CandidateView>| of_version(b, version),
        ));
    }
    (kept, dropped)
}

/// The reserved candidates of one snapshot, and how many others there are.
fn current_selected(t: &Table<AtomCandidate>, version: u64) -> (r: (Table<AtomCandidate>, u64))
    requires
        obsolete_selected(t.rows(), version, t.rows().len() as int) <= u64::MAX,
    ensures
        forall|p: Seq<char>| #[trigger]
            selected_view(r.0@).contains_key(p) <==> selected_view(t@).contains_key(p)
                && selected_view(t@)[p].version == version,
        forall|p: Seq<char>| #[trigger]
            selected_view(r.0@).contains_key(p) ==> selected_view(r.0@)[p] == selected_view(t@)[p],
        r.1 == obsolete_selected(t.rows(), version, t.rows().len() as int),
{
    proof {
        use_type_invariant(t);
        t.lemma_rows();
    }
    let ghost rows = t.rows();
    let ghost before = t@;
    let mut kept: Table<AtomCandidate> = Table::new();
    let mut released: u64 = 0;
    let mut i: usize = 0;
    while i < t.len()
        invariant
            i <= rows.len(),
            rows == t.rows(),
            before == t@,
            obsolete_selected(rows, version, rows.len() as int) <= u64::MAX,
            released == obsolete_selected(rows, version, i as int),
            forall|k: int|
                0 <= k < rows.len() ==> before.contains_key((#[trigger] rows[k]).0@)
                    && before[rows[k].0@] == rows[k].1,
            forall|name: Seq<char>| #[trigger]
                kept@.contains_key(name) ==> before.contains_key(name) && kept@[name]@
                    == before[name]@ && before[name]@.version == version,
            forall|k: int|
                0 <= k < i && (#[trigger] rows[k]).1@.version == version ==> kept@.contains_key(
                    rows[k].0@,
                ),
        decreases rows.len() - i,
    {
        let row = t.row(i);
        if row.1.snapshot_version == version {
            let _ = kept.insert(row.0.as_str().to_owned(), row.1.copy());
        } else {
            proof {
                lemma_released_grows(rows, version, i + 1, rows.len() as int);
            }
            released = released + 1;
        }
        i = i + 1;
    }
    proof {
        assert forall|p: Seq<char>| #[trigger]
            selected_view(kept@).contains_key(p) <==> selected_view(before).contains_key(p)
                && selected_view(before)[p].version == version by {
            if selected_view(before).contains_key(p) && selected_view(before)[p].version == version {
                let names = row_names(rows);
                assert(before.contains_key(p));
                assert(names.contains(p));
                let k = choose|k: int| 0 <= k < names.len() && names[k] == p;
                assert(rows[k].0@ == p);
            }
            if kept@.contains_key(p) {
                assert(before.contains_key(p));
            }
        }
        assert forall|p: Seq<char>| #[trigger] selected_view(kept@).contains_key(p) implies selected_view(
            kept@,
        )[p] == selected_view(before)[p] by {
            assert(kept@.contains_key(p));
        }
    }
    (kept, released)
}

/// After discarding, only candidates of the snapshot are left, none of them is lost, and they
/// keep their order.
pub proof fn discarding_keeps_the_current(b: Seq<CandidateView>, version: u64, c: CandidateView)
    ensures
        of_version(b, version).contains(c) <==> b.contains(c) && c.version == version,
        of_version(b, version).len() <= b.len(),
    decreases b.len(),
{
    if b.len() > 0 {
        let d = b.drop_last();
        discarding_keeps_the_current(d, version, c);
        let kept = of_version(d, version);
        assert(b[b.len() - 1] == b.last());
        if d.contains(c) {
            let k = choose|k: int| 0 <= k < d.len() && d[k] == c;
            assert(b[k] == c);
        }
        if b.contains(c) && c != b.last() {
            let k = choose|k: int| 0 <= k < b.len() && b[k] == c;
            assert(d[k] == c);
        }
        let all = kept.push(b.last());
        if kept.contains(c) {
            let k = choose|k: int| 0 <= k < kept.len() && kept[k] == c;
            assert(all[k] == c);
        }
        assert(all[kept.len() as int] == b.last());
        if all.contains(c) && c != b.last() {
            let k = choose|k: int| 0 <= k < all.len() && all[k] == c;
            assert(kept[k] == c);
        }
    }
}

/// Buffers that are not over capacity stay so, and a candidate always joins as the newest.
pub proof fn buffers_stay_bounded(bs: Buffers, c: CandidateView, process: Seq<char>)
    requires
        waiting(bs, process).len() <= CANDIDATE_BUFFER_CAPACITY,
    ensures
        waiting(joined(bs, c), process).len() <= CANDIDATE_BUFFER_CAPACITY,
        waiting(joined(bs, c), c.process).last() == c,
        process != c.process ==> waiting(joined(bs, c), process) == waiting(bs, process),
{
}

} // verus!
