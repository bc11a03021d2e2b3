//! The committer: dispatching transactions, validating and installing what they did, recovery,
//! and checkpoints.
use vstd::prelude::*;
use vstd::utf8::encode_utf8;

use crate::mvcc::{
    applied, committed_inv, difference, end_spec, first_conflict, install_spec,
    prefixes_view, validate, writeset, Committed, CommittedView, Paths,
};
use crate::paths::{PathMap, Present};
use crate::table::Table;
use crate::text::{concat, dec_text, parse_u64, str_eq, u64_text, unsigned_value};
use crate::transaction::{underscore_from, Event, TxId, TxOk};
use crate::wal::files::{CkptMeta, CkptMetaView};
use crate::wal::record::{frame_bytes, OwnedRec, Rec, RecView};
use crate::wal::writer::{Appended, FsyncPolicy, Wal};
use crate::worker::{BudgetAction, OutcomeView, TxResultParts, WorkerOutcome};

verus! {

/// How the engine is run.
pub struct EngineConfig {
    pub step_budget: u64,
    pub budget_action: BudgetAction,
    /// Where the log is kept; without it nothing is persisted.
    pub data_dir: Option<String>,
    pub fsync: FsyncPolicy,
    /// A checkpoint is taken every so many finished transactions; zero means never.
    pub checkpoint_every: u64,
    /// The number of worker threads, at least one.
    pub workers: usize,
}

/// The number of a `tx<n>_…` identifier.
pub open spec fn id_number(id: Seq<char>) -> Option<u64> {
    let b = encode_utf8(id);
    if b.len() < 2 || b[0] != 116 || b[1] != 120 {
        None
    } else {
        match underscore_from(b, 2) {
            None => None,
            Some(u) => match unsigned_value(b.subrange(2, u)) {
                Some(v) => if v <= u64::MAX {
                    Some(v as u64)
                } else {
                    None
                },
                None => None,
            },
        }
    }
}

/// The number of a `tx<n>_…` identifier. After recovery the counter has to be past every number
/// that was replayed.
pub fn txid_count(id: &str) -> (r: Option<u64>)
    ensures
        r == id_number(id@),
{
    let b = id.as_bytes();
    if b.len() < 2 || b[0] != 116 || b[1] != 120 {
        return None;
    }
    let mut u: usize = 2;
    while u < b.len() && b[u] != 95
        invariant
            2 <= u <= b@.len(),
            underscore_from(b@, 2) == underscore_from(b@, u as int),
        decreases b@.len() - u,
    {
        u = u + 1;
    }
    if u >= b.len() {
        return None;
    }
    parse_u64(vstd::slice::slice_subrange(b, 2, u))
}

/// What recovery has rebuilt so far: the committed state, the state at every version since the
/// checkpoint, and the largest transaction number seen.
pub struct Recovery {
    pub committed: Committed,
    /// Entry `i` is the state at `first_version + i`.
    pub snapshots: Vec<PathMap<Present>>,
    pub first_version: u64,
    pub max_tx: u64,
}

pub ghost struct RecoveryView {
    pub committed: CommittedView,
    pub snapshots: Seq<Paths>,
    pub first_version: u64,
    pub max_tx: u64,
}

pub open spec fn snapshots_view(s: Seq<PathMap<Present>>) -> Seq<Paths> {
    s.map_values(|m: PathMap<Present>| m@.dom())
}

impl Recovery {
    pub open spec fn view(&self) -> RecoveryView {
        RecoveryView {
            committed: self.committed@,
            snapshots: snapshots_view(self.snapshots@),
            first_version: self.first_version,
            max_tx: self.max_tx,
        }
    }
}

/// What holds between records: there is a snapshot for every version up to the current one, whose
/// snapshot is the current state, and nothing is running.
pub open spec fn recovery_inv(r: RecoveryView) -> bool {
    &&& committed_inv(r.committed)
    &&& r.committed.active_bases.len() == 0
    &&& r.snapshots.len() == r.committed.version - r.first_version + 1
    &&& r.snapshots.len() > 0
    &&& r.snapshots.last() == r.committed.btm
}

/// Why a checkpoint cannot be restored; `None` where it can.
pub open spec fn meta_refusal(m: CkptMetaView, snapshot_exists: bool) -> Option<Seq<char>> {
    if m.format != "paths"@ {
        Some("unsupported checkpoint format '"@ + m.format + "'"@)
    } else if !snapshot_exists {
        Some("checkpoint.meta names missing snapshot '"@ + m.snapshot + "'"@)
    } else {
        None
    }
}

/// Whether a checkpoint can be restored.
pub fn check_meta(m: &CkptMeta, snapshot_exists: bool) -> (r: Result<(), String>)
    ensures
        match r {
            Ok(()) => meta_refusal(m@, snapshot_exists) is None,
            Err(e) => meta_refusal(m@, snapshot_exists) == Some(e@),
        },
{
    if !str_eq(m.format.as_str(), "paths") {
        let mut out = concat("unsupported checkpoint format '", m.format.as_str());
        out.append("'");
        return Err(out);
    }
    if !snapshot_exists {
        let mut out = concat("checkpoint.meta names missing snapshot '", m.snapshot.as_str());
        out.append("'");
        return Err(out);
    }
    Ok(())
}

pub open spec fn replay_of(id: Seq<char>) -> Seq<char> {
    "replay of "@ + id
}

pub open spec fn will_not_start() -> Seq<char> {
    ". The recovered state would not match what was committed, so the server will not start. If you changed --step-budget since this log was written, that is the likely cause: a transaction that originally stopped at the budget will step differently under a new one."@
}

/// The base that a record is replayed from, or why there is none.
pub open spec fn replay_base(r: RecoveryView, rec: RecView) -> Result<Paths, Seq<char>> {
    if id_number(rec.id) is None {
        Err(replay_of(rec.id) + ": not a valid tx<n>_… id"@)
    } else if rec.base_version < r.first_version || rec.base_version > r.committed.version {
        Err(
            replay_of(rec.id) + ": base version "@ + dec_text(rec.base_version as nat)
                + " is not in the log window"@,
        )
    } else {
        Ok(r.snapshots[rec.base_version - r.first_version])
    }
}

/// What a replayed run produced.
pub ghost struct ReplayView {
    pub btm: Paths,
    pub remove_prefixes: Seq<Seq<u8>>,
    pub steps: u64,
    pub outcome: OutcomeView,
}

pub open spec fn parts_view(p: TxResultParts) -> ReplayView {
    ReplayView {
        btm: p.btm@.dom(),
        remove_prefixes: prefixes_view(p.remove_prefixes@),
        steps: p.steps,
        outcome: p.outcome@,
    }
}

/// Recovery after one more record, or why the log does not fit.
pub open spec fn replayed_spec(r: RecoveryView, rec: RecView, base: Paths, run: ReplayView) -> Result<
    RecoveryView,
    Seq<char>,
> {
    let next = install_spec(r.committed, difference(base, run.btm), run.remove_prefixes);
    if run.outcome is Failed {
        Err(
            replay_of(rec.id) + " failed (determinism broken?): "@ + run.outcome->Failed_0
                + ". If you changed --budget-action since this log was written, that is a likely cause: a transaction that originally committed by parking under `commit` can fail outright when replayed under `abort`."@,
        )
    } else if run.steps != rec.steps {
        Err(
            replay_of(rec.id) + " diverged: ran "@ + dec_text(run.steps as nat)
                + " steps, log says "@ + dec_text(rec.steps as nat) + will_not_start(),
        )
    } else if next.version != rec.version {
        Err(
            replay_of(rec.id) + " diverged: installed at version "@ + dec_text(next.version as nat)
                + ", log says "@ + dec_text(rec.version as nat) + will_not_start(),
        )
    } else {
        let number = match id_number(rec.id) {
            Some(n) => n,
            None => 0,
        };
        Ok(
            RecoveryView {
                committed: next,
                snapshots: r.snapshots.push(next.btm),
                first_version: r.first_version,
                max_tx: if number > r.max_tx {
                    number
                } else {
                    r.max_tx
                },
            },
        )
    }
}

impl Recovery {
    /// Recovery starts from a checkpoint, or from nothing.
    pub fn start(checkpoint: Option<(&CkptMeta, PathMap<Present>)>) -> (r: Recovery)
        ensures
            recovery_inv(r@),
            match checkpoint {
                Some((m, btm)) => r@.committed.btm == btm@.dom() && r@.committed.version
                    == m.version && r@.first_version == m.version && r@.max_tx == m.tx_counter,
                None => r@.committed.btm == Set::<Seq<u8>>::empty() && r@.committed.version == 0
                    && r@.first_version == 0 && r@.max_tx == 0,
            },
            r@.committed.history == Seq::<crate::mvcc::RecordView>::empty(),
    {
        let (btm, version, max_tx): (PathMap<Present>, u64, u64) = match checkpoint {
            Some((m, btm)) => (btm, m.version, m.tx_counter),
            None => {
                let btm = PathMap::new();
                assert(btm@.dom() =~= Set::<Seq<u8>>::empty());
                (btm, 0, 0)
            },
        };
        let mut snapshots: Vec<PathMap<Present>> = Vec::new();
        snapshots.push(btm.copy());
        let r = Recovery {
            committed: Committed::new(btm, version),
            snapshots,
            first_version: version,
            max_tx,
        };
        assert(r@.snapshots.last() == r@.committed.btm);
        r
    }

    /// The base that a record has to be replayed from: the state at the version that the
    /// transaction really ran against.
    pub fn base_for(&self, rec: &OwnedRec) -> (r: Result<PathMap<Present>, String>)
        requires
            recovery_inv(self@),
        ensures
            match r {
                Ok(base) => replay_base(self@, rec@) == Ok::<Paths, Seq<char>>(base@.dom()),
                Err(e) => replay_base(self@, rec@) == Err::<Paths, Seq<char>>(e@),
            },
    {
        let OwnedRec::Commit { id, base_version, .. } = rec;
        let mut text = concat("replay of ", id.as_str());
        if txid_count(id.as_str()).is_none() {
            text.append(": not a valid tx<n>_… id");
            return Err(text);
        }
        if *base_version < self.first_version || *base_version > self.committed.version {
            text.append(": base version ");
            text.append(u64_text(*base_version).as_str());
            text.append(" is not in the log window");
            return Err(text);
        }
        let offset: u64 = *base_version - self.first_version;
        assert(offset < self.snapshots.len());
        let i: usize = offset as usize;
        assert(self@.snapshots[i as int] == self.snapshots@[i as int]@.dom());
        Ok(self.snapshots[i].copy())
    }

    /// Takes what a replayed transaction did. What disagrees with the log is an error: the
    /// recovered state would not be what was committed.
    pub fn replayed(&mut self, rec: &OwnedRec, base: &PathMap<Present>, parts: TxResultParts) -> (r:
        Result<(), String>)
        requires
            recovery_inv(old(self)@),
            old(self).committed.version < u64::MAX,
            id_number(rec@.id) is Some,
        ensures
            match replayed_spec(old(self)@, rec@, base@.dom(), parts_view(parts)) {
                Ok(next) => r is Ok && final(self)@ == next && recovery_inv(next),
                Err(e) => r matches Err(t) && t@ == e,
            },
    {
        let OwnedRec::Commit { id, steps, version: logged, .. } = rec;
        let mut text = concat("replay of ", id.as_str());
        match parts.outcome {
            WorkerOutcome::Failed(e) => {
                text.append(" failed (determinism broken?): ");
                text.append(e.as_str());
                text.append(
                    ". If you changed --budget-action since this log was written, that is a likely cause: a transaction that originally committed by parking under `commit` can fail outright when replayed under `abort`.",
                );
                return Err(text);
            },
            _ => {},
        }
        if parts.steps != *steps {
            text.append(" diverged: ran ");
            text.append(u64_text(parts.steps).as_str());
            text.append(" steps, log says ");
            text.append(u64_text(*steps).as_str());
            text.append(
                ". The recovered state would not match what was committed, so the server will not start. If you changed --step-budget since this log was written, that is the likely cause: a transaction that originally stopped at the budget will step differently under a new one.",
            );
            return Err(text);
        }
        let ws = writeset(base, &parts.btm);
        let v = self.committed.install(ws, parts.remove_prefixes);
        if v != *logged {
            text.append(" diverged: installed at version ");
            text.append(u64_text(v).as_str());
            text.append(", log says ");
            text.append(u64_text(*logged).as_str());
            text.append(
                ". The recovered state would not match what was committed, so the server will not start. If you changed --step-budget since this log was written, that is the likely cause: a transaction that originally stopped at the budget will step differently under a new one.",
            );
            return Err(text);
        }
        let number = txid_count(id.as_str()).unwrap();
        if number > self.max_tx {
            self.max_tx = number;
        }
        let snapshot = self.committed.btm.copy();
        self.snapshots.push(snapshot);
        assert(self@.snapshots =~= old(self)@.snapshots.push(self@.committed.btm));
        Ok(())
    }

    /// Recovery is complete: the state to serve and the counter to go on from. No transaction is
    /// running that could need the history.
    pub fn finish(self) -> (r: (Committed, u64))
        requires
            recovery_inv(self@),
        ensures
            r.0@ == (CommittedView { history: seq![], ..self@.committed }),
            committed_inv(r.0@),
            r.1 == self.max_tx,
    {
        let mut committed = self.committed;
        committed.forget_history();
        (committed, self.max_tx)
    }
}

/// A log's states: the state after the first `k` records, each transaction being run from the
/// state at the version that its record names. `run` says what a transaction makes of its base.
pub open spec fn log_state(
    start: Paths,
    first_version: u64,
    log: Seq<RecView>,
    run: spec_fn(RecView, Paths) -> ReplayView,
    k: int,
) -> Paths
    decreases k,
{
    if k <= 0 {
        start
    } else {
        let rec = log[k - 1];
        let b = rec.base_version - first_version;
        if 0 <= b < k {
            let base = log_state(start, first_version, log, run, b);
            applied(
                log_state(start, first_version, log, run, k - 1),
                difference(base, run(rec, base).btm),
            )
        } else {
            start
        }
    }
}

/// Whether a log is one that the committer writes: consecutive versions, bases no newer than what
/// was committed, well-formed identifiers, and runs that are repeated as they were.
pub open spec fn committed_log(
    start: Paths,
    first_version: u64,
    log: Seq<RecView>,
    run: spec_fn(RecView, Paths) -> ReplayView,
) -> bool {
    &&& first_version + log.len() <= u64::MAX
    &&& forall|k: int|
        0 <= k < log.len() ==> {
            let rec = #[trigger] log[k];
            let base = log_state(start, first_version, log, run, rec.base_version - first_version);
            &&& rec.version == first_version + k + 1
            &&& first_version <= rec.base_version <= first_version + k
            &&& id_number(rec.id) is Some
            &&& run(rec, base).steps == rec.steps
            &&& !(run(rec, base).outcome is Failed)
        }
}

/// Recovery over the first `k` records of a log.
pub open spec fn recover_spec(
    r: RecoveryView,
    log: Seq<RecView>,
    run: spec_fn(RecView, Paths) -> ReplayView,
    k: int,
) -> Result<RecoveryView, Seq<char>>
    decreases k,
{
    if k <= 0 {
        Ok(r)
    } else {
        match recover_spec(r, log, run, k - 1) {
            Err(e) => Err(e),
            Ok(before) => match replay_base(before, log[k - 1]) {
                Err(e) => Err(e),
                Ok(base) => replayed_spec(before, log[k - 1], base, run(log[k - 1], base)),
            },
        }
    }
}

pub open spec fn largest_number(log: Seq<RecView>, start: u64, k: int) -> u64
    decreases k,
{
    if k <= 0 {
        start
    } else {
        let before = largest_number(log, start, k - 1);
        match id_number(log[k - 1].id) {
            Some(n) => if n > before {
                n
            } else {
                before
            },
            None => before,
        }
    }
}

/// Whether recovery over the first `k` records of a log that the committer wrote stands where the
/// committer stood.
pub open spec fn reproduced(
    r: RecoveryView,
    log: Seq<RecView>,
    run: spec_fn(RecView, Paths) -> ReplayView,
    k: int,
    n: RecoveryView,
) -> bool {
    &&& recovery_inv(n)
    &&& n.first_version == r.first_version
    &&& n.committed.version == r.first_version + k
    &&& n.committed.btm == log_state(r.committed.btm, r.first_version, log, run, k)
    &&& n.max_tx == largest_number(log, r.max_tx, k)
    &&& forall|j: int|
        0 <= j <= k ==> #[trigger] n.snapshots[j] == log_state(
            r.committed.btm,
            r.first_version,
            log,
            run,
            j,
        )
    &&& forall|j: int|
        0 <= j < k ==> (id_number((#[trigger] log[j]).id) matches Some(m) && m <= n.max_tx)
}

/// The next record that the committer wrote is replayed to where the committer stood.
proof fn lemma_next_is_reproduced(
    r: RecoveryView,
    log: Seq<RecView>,
    run: spec_fn(RecView, Paths) -> ReplayView,
    k: int,
    before: RecoveryView,
)
    requires
        committed_log(r.committed.btm, r.first_version, log, run),
        0 < k <= log.len(),
        reproduced(r, log, run, k - 1, before),
    ensures
        replay_base(before, log[k - 1]) matches Ok(base) && replayed_spec(
            before,
            log[k - 1],
            base,
            run(log[k - 1], base),
        ) matches Ok(n) && reproduced(r, log, run, k, n),
{
    let rec = log[k - 1];
    let b = rec.base_version - r.first_version;
    let base = before.snapshots[b];
    assert(base == log_state(r.committed.btm, r.first_version, log, run, b));
    let made = run(rec, base);
    assert(made.steps == rec.steps && !(made.outcome is Failed));
    assert(rec.version == r.first_version + k);
    crate::mvcc::committed_inv_is_kept(
        before.committed,
        difference(base, made.btm),
        made.remove_prefixes,
        0,
    );
    let n = replayed_spec(before, rec, base, made)->Ok_0;
    assert(n.snapshots =~= before.snapshots.push(n.committed.btm));
    assert(n.committed.btm == log_state(r.committed.btm, r.first_version, log, run, k));
    assert forall|j: int| 0 <= j <= k implies #[trigger] n.snapshots[j] == log_state(
        r.committed.btm,
        r.first_version,
        log,
        run,
        j,
    ) by {
        if j < k {
            assert(n.snapshots[j] == before.snapshots[j]);
        }
    }
}

/// Recovery reproduces what was committed: replaying a log that the committer wrote succeeds and
/// ends in the committed state at the committed version, and the counter it restores is at least
/// the number of every replayed transaction.
pub proof fn recovery_reproduces_the_committed_state(
    r: RecoveryView,
    log: Seq<RecView>,
    run: spec_fn(RecView, Paths) -> ReplayView,
    k: int,
)
    requires
        recovery_inv(r),
        r.first_version == r.committed.version,
        committed_log(r.committed.btm, r.first_version, log, run),
        0 <= k <= log.len(),
    ensures
        recover_spec(r, log, run, k) matches Ok(n) && reproduced(r, log, run, k, n),
    decreases k,
{
    if k == 0 {
        assert(r.snapshots[0] == r.snapshots.last());
    } else {
        recovery_reproduces_the_committed_state(r, log, run, k - 1);
        lemma_next_is_reproduced(r, log, run, k, recover_spec(r, log, run, k - 1)->Ok_0);
    }
}

/// A transaction that was sent to a worker.
pub struct Job {
    pub id: TxId,
    pub base: PathMap<Present>,
    pub base_version: u64,
    pub source: String,
}

/// A finished run, handed back to be validated.
pub struct TxResult {
    pub id: TxId,
    pub base_version: u64,
    pub source: String,
    pub btm: PathMap<Present>,
    pub remove_prefixes: Vec<Vec<u8>>,
    pub count: usize,
    pub steps: u64,
    pub outcome: WorkerOutcome,
}

/// The committed state, the bases of the running transactions, and their identifiers.
pub struct Committer {
    pub committed: Committed,
    pub bases: Table<PathMap<Present>>,
    pub active: Table<()>,
}

/// How the client is answered.
pub enum Answer {
    /// At once.
    Now(Result<TxOk, String>),
    /// By the log, once the record is on disk.
    ByLog(TxOk),
}

/// What a finished transaction leads to.
pub struct CommitOutcome {
    pub answer: Answer,
    /// Events to publish, in order.
    pub events: Vec<Event>,
    /// The frame to append to the log.
    pub frame: Option<Vec<u8>>,
    /// Whether there is a new state to publish.
    pub installed: bool,
}

pub open spec fn poisoned_reason() -> Seq<char> {
    "unavailable: the write-ahead log is poisoned by an earlier disk error; the server cannot durably record new transactions until it is restarted"@
}

/// Why a finished transaction is not installed; `None` where it is. A failed run comes first,
/// a poisoned log second, a conflict last.
pub open spec fn refusal(
    c: CommittedView,
    base: Paths,
    outcome: OutcomeView,
    finished: Paths,
    remove_prefixes: Seq<Seq<u8>>,
    base_version: u64,
    log_poisoned: bool,
) -> Option<Seq<char>> {
    match outcome {
        OutcomeView::Failed(reason) => Some(reason),
        _ => if log_poisoned {
            Some(poisoned_reason())
        } else {
            match first_conflict(
                difference(base, finished),
                remove_prefixes,
                base_version,
                c.history,
                0,
            ) {
                Some(conflict) => Some(conflict.text()),
                None => None,
            }
        },
    }
}

/// Whether an event says that a transaction was rolled back, and why.
pub open spec fn is_abort(e: Event, id: Seq<char>, reason: Seq<char>, version: u64) -> bool {
    match e {
        Event::Abort { tx, reason: why, version: v } => tx@ == id && why@ == reason && v == version,
        _ => false,
    }
}

pub open spec fn is_tx(e: Event, id: Seq<char>, count: usize, version: u64) -> bool {
    match e {
        Event::Tx { tx, count: n, version: v } => tx@ == id && n == count && v == version,
        _ => false,
    }
}

/// Whether an event says how an installed transaction ended.
pub open spec fn is_end(
    e: Event,
    id: Seq<char>,
    outcome: OutcomeView,
    steps: u64,
    version: u64,
) -> bool {
    match e {
        Event::Budget { tx, steps: n, version: v } => outcome is Budget && tx@ == id && n == steps
            && v == version,
        Event::Quiescent { tx, version: v } => !(outcome is Budget) && tx@ == id && v == version,
        _ => false,
    }
}

pub open spec fn is_ok(ok: TxOk, id: Seq<char>, count: usize, version: u64) -> bool {
    ok.tx@ == id && ok.count == count && ok.version == version
}

pub open spec fn log_poisoned(wal: Option<&Wal>) -> bool {
    wal matches Some(w) && w.poisoned
}

/// What a finished transaction leads to: it is refused and rolled back, or installed, recorded and
/// answered.
pub open spec fn commit_shows(
    before: CommittedView,
    base: Paths,
    result: TxResult,
    wal: Option<&Wal>,
    after: CommittedView,
    r: CommitOutcome,
) -> bool {
    let finished = result.btm@.dom();
    let prefixes = prefixes_view(result.remove_prefixes@);
    let version = (before.version + 1) as u64;
    match refusal(
        before,
        base,
        result.outcome@,
        finished,
        prefixes,
        result.base_version,
        log_poisoned(wal),
    ) {
        Some(reason) => {
            &&& after == end_spec(before, result.base_version)
            &&& !r.installed
            &&& r.frame is None
            &&& r.events@.len() == 1
            &&& is_abort(r.events@[0], result.id@, reason, before.version)
            &&& r.answer matches Answer::Now(Err(t)) && t@ == reason
        },
        None => {
            &&& after == end_spec(
                install_spec(before, difference(base, finished), prefixes),
                result.base_version,
            )
            &&& r.installed
            &&& match wal {
                Some(_) => r.frame matches Some(f) && f@ == frame_bytes(
                    RecView {
                        id: result.id@,
                        base_version: result.base_version,
                        source: result.source@,
                        steps: result.steps,
                        version,
                    },
                ),
                None => r.frame is None,
            }
            &&& r.events@.len() == 2
            &&& is_tx(r.events@[0], result.id@, result.count, version)
            &&& is_end(
                r.events@[1],
                result.id@,
                result.outcome@,
                result.steps,
                version,
            )
            &&& match r.answer {
                Answer::ByLog(ok) => (wal matches Some(w) && w.policy
                    == FsyncPolicy::Always) && is_ok(
                    ok,
                    result.id@,
                    result.count,
                    version,
                ),
                Answer::Now(Ok(ok)) => !(wal matches Some(w) && w.policy
                    == FsyncPolicy::Always) && is_ok(
                    ok,
                    result.id@,
                    result.count,
                    version,
                ),
                Answer::Now(Err(_)) => false,
            }
        },
    }
}

impl Committer {
    /// What holds of a committer: the committed state's own invariant, and a base is kept for
    /// exactly the transactions that are marked active.
    pub open spec fn inv(&self) -> bool {
        committed_inv(self.committed@) && self.bases@.dom() == self.active@.dom()
    }

    /// A committer over a state, with nothing running.
    pub fn new(committed: Committed) -> (r: Committer)
        requires
            committed_inv(committed@),
        ensures
            r.committed == committed,
            r.bases@ == Map::<Seq<char>, PathMap<Present>>::empty(),
            r.active@ == Map::<Seq<char>, ()>::empty(),
            r.inv(),
    {
        let r = Committer { committed, bases: Table::new(), active: Table::new() };
        assert(r.bases@.dom() =~= r.active@.dom());
        r
    }

    /// Stamps a transaction with the version it starts from, and keeps its base.
    pub fn dispatch(&mut self, id: TxId, source: String) -> (r: Job)
        requires
            old(self).inv(),
            !old(self).bases@.contains_key(id@),
        ensures
            final(self).inv(),
            final(self).committed@ == (CommittedView {
                active_bases: old(self).committed@.active_bases.push(old(self).committed@.version),
                ..old(self).committed@
            }),
            final(self).bases@ == old(self).bases@.insert(id@, final(self).bases@[id@]),
            final(self).bases@[id@]@.dom() == old(self).committed@.btm,
            final(self).active@ == old(self).active@.insert(id@, ()),
            r.id@ == id@,
            r.base@.dom() == old(self).committed@.btm,
            r.base_version == old(self).committed@.version,
            r.source == source,
    {
        let base_version = self.committed.begin();
        let kept = self.committed.btm.copy();
        let base = self.committed.btm.copy();
        let _ = self.bases.insert(id.to_text(), kept);
        let _ = self.active.insert(id.to_text(), ());
        assert(self.bases@.dom() =~= self.active@.dom());
        Job { id, base, base_version, source }
    }

    fn abort(&mut self, id: TxId, reason: String, base_version: u64) -> (r: CommitOutcome)
        requires
            committed_inv(old(self).committed@),
            old(self).bases@.dom() == old(self).active@.dom().remove(id@),
        ensures
            final(self).inv(),
            final(self).committed@ == end_spec(old(self).committed@, base_version),
            final(self).bases == old(self).bases,
            final(self).active@ == old(self).active@.remove(id@),
            !r.installed,
            r.frame is None,
            r.events@.len() == 1,
            is_abort(r.events@[0], id@, reason@, old(self).committed@.version),
            r.answer matches Answer::Now(Err(t)) && t@ == reason@,
    {
        let mut events: Vec<Event> = Vec::new();
        events.push(
            Event::Abort {
                tx: id.clone(),
                reason: reason.clone(),
                version: self.committed.version,
            },
        );
        let _ = self.active.remove(id.as_str());
        assert(self.bases@.dom() =~= self.active@.dom());
        self.committed.end(base_version);
        CommitOutcome { answer: Answer::Now(Err(reason)), events, frame: None, installed: false }
    }

    /// Validates a finished transaction and installs it, or rolls it back. Either way the
    /// transaction is over: its base is released, it is no longer active, and the state no longer
    /// keeps history for it.
    pub fn commit(&mut self, result: TxResult, wal: Option<&Wal>) -> (r: CommitOutcome)
        requires
            old(self).inv(),
            old(self).bases@.contains_key(result.id@),
            old(self).committed@.active_bases.contains(result.base_version),
            old(self).committed@.version < u64::MAX,
            wal is Some ==> encode_utf8(result.source@).len() + 255 <= u32::MAX,
        ensures
            final(self).inv(),
            final(self).bases@ == old(self).bases@.remove(result.id@),
            final(self).active@ == old(self).active@.remove(result.id@),
            commit_shows(
                old(self).committed@,
                old(self).bases@[result.id@]@.dom(),
                result,
                wal,
                final(self).committed@,
                r,
            ),
    {
        let ghost before = self.committed@;
        let id = result.id;
        let base = self.bases.remove(id.as_str()).unwrap();
        assert(self.bases@.dom() =~= self.active@.dom().remove(id@));
        if let WorkerOutcome::Failed(reason) = result.outcome {
            return self.abort(id, reason, result.base_version);
        }
        let poisoned = match wal {
            Some(w) => w.poisoned(),
            None => false,
        };
        if poisoned {
            let reason = "unavailable: the write-ahead log is poisoned by an earlier disk error; the server cannot durably record new transactions until it is restarted".to_owned();
            return self.abort(id, reason, result.base_version);
        }
        proof {
            lemma_history_reaches_back(before, result.base_version);
        }
        let ws = writeset(&base, &result.btm);
        if let Err(c) = validate(
            &ws,
            &result.remove_prefixes,
            result.base_version,
            &self.committed.history,
        ) {
            return self.abort(id, c.reason().to_owned(), result.base_version);
        }
        let version = self.committed.install(ws, result.remove_prefixes);
        let ok = TxOk { tx: id.clone(), count: result.count, version };
        let mut frame: Option<Vec<u8>> = None;
        let mut by_log = false;
        if let Some(w) = wal {
            let rec = Rec::Commit {
                id: id.as_str(),
                base_version: result.base_version,
                source: result.source.as_str(),
                steps: result.steps,
                version,
            };
            proof {
                crate::bytes::lemma_le_len(rec@.base_version as int);
                crate::bytes::lemma_le_len(rec@.steps as int);
                crate::bytes::lemma_le_len(rec@.version as int);
            }
            match w.append(&rec) {
                Appended::Queued(bytes) => {
                    frame = Some(bytes);
                },
                Appended::Refused(_) => {},
            }
            by_log = w.acks_mean_durable();
        }
        let mut events: Vec<Event> = Vec::new();
        events.push(Event::Tx { tx: id.clone(), count: result.count, version });
        match result.outcome {
            WorkerOutcome::Budget => {
                events.push(Event::Budget { tx: id.clone(), steps: result.steps, version });
            },
            _ => {
                events.push(Event::Quiescent { tx: id.clone(), version });
            },
        }
        let _ = self.active.remove(id.as_str());
        assert(self.bases@.dom() =~= self.active@.dom());
        self.committed.end(result.base_version);
        let answer = if by_log {
            Answer::ByLog(ok)
        } else {
            Answer::Now(Ok(ok))
        };
        CommitOutcome { answer, events, frame, installed: true }
    }
}

/// The history holds every record newer than the base of a running transaction.
pub proof fn lemma_history_reaches_back(c: CommittedView, base_version: u64)
    requires
        committed_inv(c),
        c.active_bases.contains(base_version),
    ensures
        crate::mvcc::reaches_back(c.history, base_version),
{
    let k = choose|k: int| 0 <= k < c.active_bases.len() && c.active_bases[k] == base_version;
    assert(c.version - c.history.len() <= c.active_bases[k]);
    if c.history.len() > 0 {
        assert(c.history[0].version == c.version - c.history.len() + 1);
    }
}

/// A transaction that is rolled back leaves paths and version as if it had never run.
pub proof fn rollback_changes_nothing(c: CommittedView, base_version: u64)
    ensures
        end_spec(c, base_version).btm == c.btm,
        end_spec(c, base_version).version == c.version,
{
}

/// A transaction that ran alone is installed as its own final state.
pub proof fn alone_installs_its_final_state(
    c: CommittedView,
    finished: Paths,
    remove_prefixes: Seq<Seq<u8>>,
    base_version: u64,
)
    requires
        base_version == c.version,
        committed_inv(c),
    ensures
        refusal(
            c,
            c.btm,
            OutcomeView::Quiesced,
            finished,
            remove_prefixes,
            base_version,
            false,
        ) is None,
        install_spec(c, difference(c.btm, finished), remove_prefixes).btm == finished,
{
    crate::mvcc::install_on_base_gives_finished(c.btm, finished);
    crate::mvcc::validation_is_complete(
        difference(c.btm, finished),
        remove_prefixes,
        base_version,
        c.history,
        0,
    );
    assert forall|k: int| 0 <= k < c.history.len() implies !((#[trigger] c.history[k]).version
        > base_version) by {
        assert(c.history[k].version == c.version - c.history.len() + 1 + k);
    }
}

} // verus!
