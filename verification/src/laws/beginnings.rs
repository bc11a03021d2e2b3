//! Beginnings: what is there at the start, what is remembered, and what is forgotten.
use vstd::prelude::*;

use crate::admission::AdmissionController;
use crate::engine::Committer;
use crate::events::DeltaTask;
use crate::mvcc::Committed;
use crate::paths::{PathMap, Present};
use crate::python::manager::PySessionManager;
use crate::run_loop::{EngineLoop, LoopAction};
use crate::scheduler::{CycleScheduler, SchedulePolicy};
use crate::sweep::registry::{ProcessId, WeightedAtomSweep, WeightedAtomSweepSettings};
use crate::sweep::sti::{Numbers, SnapshotStiIndex, StiIndex};
use crate::sweep::traversal::Traversal;
use crate::text::dec_text;
use crate::wal::files::CkptMeta;
use crate::wal::segments::Corrupt;
use crate::wal::writer::{Action, FsyncPolicy, Wal, Writer};
use crate::worker::{panicked, worker_name, WorkerOutcome};

verus! {

/// At the start nobody is let in yet, and the limits are those that were given.
pub proof fn nobody_is_in_at_the_start(a: usize, b: usize, c: usize, r: AdmissionController)
    requires
        call_ensures(AdmissionController::new, (a, b, c), r),
    ensures
        r@.max_body_bytes == a && r@.max_inflight == b && r@.max_sse_subs == c,
        r@.inflight == 0 && r@.sse_subs == 0 && r@.delta_subs == 0,
{
}

/// A committed state starts with nothing running and nothing remembered.
pub proof fn nothing_runs_at_the_start(
    btm: PathMap<Present>,
    version: u64,
    r: Committed,
    c: Committed,
    d: Committer,
)
    requires
        call_ensures(Committed::new, (btm, version), r),
        call_ensures(Committer::new, (c,), d),
    ensures
        r.btm@.dom() == btm@.dom(),
        r.version == version,
        r.history@.len() == 0,
        r.active_bases@.len() == 0,
        d.committed == c,
        d.bases@.dom() == Set::<Seq<char>>::empty(),
        d.active@.dom() == Set::<Seq<char>>::empty(),
{
    assert(r@.btm == r.btm@.dom());
    assert(r@.version == r.version);
    assert(r@.history.len() == r.history@.len());
    assert(r@.active_bases == r.active_bases@);
    assert(d.bases@.dom() =~= Set::<Seq<char>>::empty());
    assert(d.active@.dom() =~= Set::<Seq<char>>::empty());
}

/// A log starts in order, with nothing to write and nobody waiting; the loop starts with nothing in
/// flight and looks for results.
pub proof fn nothing_is_pending_at_the_start(
    policy: FsyncPolicy,
    wal: Wal,
    seq: u64,
    w: (Writer, Action),
    workers: usize,
    l: EngineLoop,
)
    requires
        call_ensures(Wal::open, (policy,), wal),
        call_ensures(Writer::start, (policy, seq), w),
        call_ensures(EngineLoop::start, (workers,), l),
    ensures
        wal.policy == policy && !wal.poisoned && !wal.ckpt_busy,
        w.0.policy == policy && w.0.seq == seq && !w.0.dirty && !w.0.poisoned,
        w.0.batch@.len() == 0 && w.0.acks@.len() == 0,
        w.1 matches Action::Wait { deadline } && !deadline,
        l.workers == workers && l.in_flight == 0 && l.finished == 0,
        l.asked == LoopAction::TryResult,
{
    let v = w.0@;
    let a = w.1@;
    assert(v.batch == w.0.batch@ && v.acks == w.0.acks@);
}

/// A sweep starts with no process, no candidate and no count.
pub proof fn nothing_is_swept_at_the_start(
    settings: WeightedAtomSweepSettings,
    s: WeightedAtomSweep,
    policy: SchedulePolicy,
    c: CycleScheduler,
    id: ProcessId,
    t: Traversal,
    p: Seq<char>,
)
    requires
        call_ensures(WeightedAtomSweep::new, (settings,), s),
        call_ensures(CycleScheduler::new, (policy,), c),
        call_ensures(Traversal::new, (id,), t),
    ensures
        s.processes.rows().len() == 0,
        !s.buffers().contains_key(p) && !s.selected().contains_key(p),
        !s.controllers@.contains_key(p),
        s.metrics.candidates_consumed == 0 && s.metrics.stale_version_candidates == 0
            && s.metrics.missing_path_candidates == 0,
        c.policy == policy && c.process_order@.len() == 0 && !c.background_credits@.contains_key(p),
        !c.rules().contains_key(p),
        t.process() == id.0@ && t.current() is None && t.offering() is None,
{
}

/// A session needs a worker until one is started for it, and results are kept until they are
/// cleared, which leaves the workers alone.
pub proof fn workers_are_started_once(
    path: String,
    m: PySessionManager,
    a: &mut PySessionManager,
    session: &str,
    b: &PySessionManager,
    other: &str,
    needs: bool,
    c: &mut PySessionManager,
    id: Seq<char>,
)
    requires
        call_ensures(PySessionManager::with_worker, (path,), m),
        call_ensures(PySessionManager::worker_started, (a, session), ()),
        *b == *final(a),
        call_ensures(PySessionManager::needs_worker, (b, other), needs),
        call_ensures(PySessionManager::clear_results, (c,), ()),
    ensures
        m.worker_path == path,
        !m.results@.contains_key(id) && !m.workers@.contains_key(id),
        other@ == session@ ==> !needs,
        other@ != session@ ==> needs == !old(a).workers@.contains_key(other@),
        final(a).results == old(a).results,
        !final(c).results@.contains_key(id),
        final(c).workers == old(c).workers,
{
}

/// Where there is no description there is no checkpoint.
pub proof fn no_description_no_checkpoint(
    file: Option<&[u8]>,
    r: Result<Option<CkptMeta>, Corrupt>,
)
    requires
        call_ensures(CkptMeta::load_file, (file,), r),
    ensures
        file is None ==> (r matches Ok(m) && m is None),
        file is Some ==> !(r matches Ok(m) && m is None),
{
}

/// The index of a snapshot is made once and kept until the snapshot changes.
pub proof fn an_index_is_kept_until_the_snapshot_changes(
    s: &mut SnapshotStiIndex,
    map: &PathMap<u64>,
    numbers: &Numbers,
    r: StiIndex,
    t: &mut SnapshotStiIndex,
)
    requires
        call_ensures(SnapshotStiIndex::get_or_build, (s, map, numbers), r),
        call_ensures(SnapshotStiIndex::snapshot_changed, (t,), ()),
        old(s).rebuild_total() < u64::MAX,
    ensures
        old(s).cached() is Some ==> final(s).cached() == old(s).cached() && final(s).rebuild_total()
            == old(s).rebuild_total(),
        old(s).cached() is None ==> final(s).cached() is Some && final(s).rebuild_total() == old(
            s,
        ).rebuild_total() + 1,
        final(s).cached() matches Some(i) && i.malformed_sti_facts == r.malformed_sti_facts,
        final(t).cached() is None,
        final(t).rebuild_total() == old(t).rebuild_total(),
{
}

/// An index lists its facts by atom, and the facts of one atom by path.
pub proof fn an_index_is_ordered(map: &PathMap<u64>, numbers: &Numbers, r: StiIndex, i: int, j: int)
    requires
        call_ensures(StiIndex::scan, (map, numbers), r),
        0 <= i < j < r.candidates@.len(),
    ensures
        ({
            let a = r.candidates@[i];
            let b = r.candidates@[j];
            &&& a.atom_key@ != b.atom_key@ ==> crate::paths::path_lt(a.atom_key@, b.atom_key@)
            &&& a.atom_key@ == b.atom_key@ ==> crate::paths::path_lt(a.path@, b.path@)
            &&& a.path@ != b.path@
        }),
{
    let vs = crate::sweep::sti::sti_views(r.candidates@);
    assert(vs[i] == r.candidates@[i]@);
    assert(vs[j] == r.candidates@[j]@);
    crate::sweep::sti_laws::the_focus_goes_by_rank(vs[i], vs[j]);
    assert(crate::sweep::sti::ahead(false, vs[i], vs[j]));
}

/// The first look at a state is remembered.
pub proof fn the_first_look_is_remembered(version: u64, btm: PathMap<u64>, r: DeltaTask)
    requires
        call_ensures(DeltaTask::new, (version, btm), r),
    ensures
        r.last_version() == version,
        r.last_map() == btm@,
{
}

/// Workers are named by their number, and one that panics fails with what it said.
pub proof fn workers_are_named_and_their_panics_told(
    i: usize,
    name: String,
    message: Option<String>,
    r: WorkerOutcome,
)
    requires
        call_ensures(worker_name, (i,), name),
        call_ensures(panicked, (message,), r),
    ensures
        name@ == "mork-worker-"@ + dec_text(i as nat),
        message matches Some(m) ==> (r matches WorkerOutcome::Failed(t) && t@ == "worker panicked: "@
            + m@),
        message is None ==> (r matches WorkerOutcome::Failed(t) && t@ == "worker panicked: "@
            + "worker panicked"@),
{
    let v = r@;
}

} // verus!
