//! What the engine's loop and its settings are for: every request is run once and every result
//! committed once, checkpoints come when they are due, and bad settings are refused with a reason.
use vstd::prelude::*;
use vstd::utf8::encode_utf8;

use crate::engine::meta_refusal;
use crate::mvcc::{CommittedView, Conflict};
use crate::run_loop::{
    checkpoint_shown, checkpoint_wanted, loop_inv, loop_step, possible, EngineLoop, LoopAction,
    LoopEvent,
};
use crate::scheduler_config::{first_fault, process_fault, ProcessConfig, SchedulerConfig};
use crate::text::dec_text;
use crate::transaction::{txid_error, underscore_from, EngineError};
use crate::wal::files::CkptMetaView;
use crate::wal::writer::{CkptRequest, Wal};

verus! {

/// Whether the loop has been asked for a result.
pub open spec fn asks_result(a: LoopAction) -> bool {
    a == LoopAction::TryResult || a is WaitResult
}

/// A result that comes in is one less in flight and one more finished; a request that comes in is
/// one more in flight. Nothing else changes either count, and nothing changes the workers.
pub proof fn the_loop_counts(l: EngineLoop, e: LoopEvent)
    requires
        loop_inv(l),
        possible(l, e),
        l.finished < u64::MAX,
    ensures
        ({
            let n = loop_step(l, e);
            let result = e == LoopEvent::Got && asks_result(l.asked);
            let request = e == LoopEvent::Got && !asks_result(l.asked);
            &&& n.workers == l.workers
            &&& n.finished - l.finished == (if result {
                1int
            } else {
                0
            })
            &&& n.in_flight - l.in_flight == (if result {
                -1int
            } else if request {
                1
            } else {
                0
            })
        }),
{
}

/// After anything that came in, the loop looks for results before requests. It looks for requests
/// while a worker is free. It waits for a request only when nothing is in flight, and for results
/// only when something is, for a limited time where a worker is free.
pub proof fn the_loop_looks_before_it_waits(l: EngineLoop, e: LoopEvent)
    requires
        loop_inv(l),
        possible(l, e),
        l.finished < u64::MAX,
    ensures
        ({
            let n = loop_step(l, e);
            &&& e == LoopEvent::Got ==> n.asked == LoopAction::TryResult
            &&& l.asked == LoopAction::TryResult && e == LoopEvent::Nothing ==> n.asked == if
                l.in_flight < l.workers {
                LoopAction::TryRequest
            } else {
                LoopAction::WaitResult { timed: false }
            }
            &&& l.asked == LoopAction::TryRequest && e == LoopEvent::Nothing ==> n.asked == if
                l.in_flight == 0 {
                LoopAction::WaitRequest
            } else {
                LoopAction::WaitResult { timed: true }
            }
            &&& l.asked is WaitResult && e == LoopEvent::Nothing ==> n.asked
                == LoopAction::TryResult
        }),
{
}

/// The loop stops when the workers are gone, or when no more requests can come and nothing is in
/// flight; as long as something is in flight, closed requests do not stop it.
pub proof fn the_loop_stops_when_it_is_done(l: EngineLoop, e: LoopEvent)
    requires
        loop_inv(l),
        possible(l, e),
        l.finished < u64::MAX,
    ensures
        loop_step(l, e).asked == LoopAction::Stop <==> {
            ||| e == LoopEvent::Closed && asks_result(l.asked)
            ||| e == LoopEvent::Closed && l.asked == LoopAction::TryRequest && l.in_flight == 0
            ||| e != LoopEvent::Got && l.asked == LoopAction::WaitRequest
        },
{
}

/// A checkpoint is asked for exactly when there is a log that is in order and not busy with one,
/// checkpoints are on, so many transactions are finished, and none is running. It is of the
/// committed state, the log is busy with it then, and the next is due after as many more. Nothing
/// else about the log changes.
pub proof fn a_checkpoint_is_asked_for_when_due(
    committed: CommittedView,
    finished: u64,
    every: u64,
    tx_counter: u64,
    wal: Option<Wal>,
    connected: bool,
    next: u64,
    wal_after: Option<Wal>,
    next_after: u64,
    r: Option<CkptRequest>,
)
    requires
        checkpoint_shown(
            committed,
            finished,
            every,
            tx_counter,
            wal,
            connected,
            next,
            wal_after,
            next_after,
            r,
        ),
        finished + every <= u64::MAX,
    ensures
        r is Some <==> (wal matches Some(w) && !w.ckpt_busy && !w.poisoned && connected && every > 0
            && finished >= next && committed.active_bases.len() == 0),
        r matches Some(req) ==> req.version == committed.version && req.tx_counter == tx_counter
            && req.format@ == "paths"@ && next_after == finished + every && (
        wal_after matches Some(w) && w.ckpt_busy),
        r is None ==> next_after == next && wal_after == wal,
        wal is Some == wal_after is Some,
        wal is Some ==> wal_after->0.policy == wal->0.policy && wal_after->0.poisoned
            == wal->0.poisoned,
{
}

/// A checkpoint is due when there is a log, checkpoints are on, so many transactions are finished,
/// and none is running.
pub proof fn when_a_checkpoint_is_due(
    has_log: bool,
    running: nat,
    finished: u64,
    every: u64,
    next: u64,
)
    ensures
        checkpoint_wanted(has_log, running, finished, every, next) <==> has_log && running == 0
            && every > 0 && finished >= next,
{
}

proof fn lemma_first_fault(ps: Seq<ProcessConfig>, i: int, k: int)
    requires
        0 <= i <= k <= ps.len(),
        forall|j: int| i <= j < k ==> #[trigger] process_fault(ps, j) is None,
    ensures
        first_fault(ps, i) == first_fault(ps, k),
    decreases k - i,
{
    if i < k {
        assert(process_fault(ps, i) is None);
        lemma_first_fault(ps, i + 1, k);
    }
}

/// Whether the process can be set up: it has a name that no earlier one has, some cycles, and an
/// engine that exists.
pub open spec fn can_be_set_up(ps: Seq<ProcessConfig>, k: int) -> bool {
    &&& ps[k].id@.len() > 0
    &&& ps[k].cycles > 0
    &&& ps[k].engine@ == "random_walk"@ || ps[k].engine@ == "cpq"@ || ps[k].engine@
        == "ecan_af_topk"@
    &&& forall|j: int| 0 <= j < k ==> (#[trigger] ps[j]).id@ != ps[k].id@
}

/// A configuration is accepted exactly where both of its numbers are positive and every process
/// can be set up.
pub proof fn a_configuration_is_accepted_where_all_is_well(c: SchedulerConfig)
    ensures
        c.fault() is None <==> c.foreground_transactions_per_round > 0 && c.poll_interval_ms > 0
            && forall|k: int| 0 <= k < c.processes@.len() ==> #[trigger] can_be_set_up(
            c.processes@,
            k,
        ),
{
    let ps = c.processes@;
    assert forall|k: int| 0 <= k < ps.len() implies (process_fault(ps, k) is None
        <==> #[trigger] can_be_set_up(ps, k)) by {
        crate::sweep::laws::strategies_are_named(ps[k].engine@);
        if crate::scheduler_config::named_before(ps, k) {
            let j = choose|j: int| 0 <= j < k && (#[trigger] ps[j]).id@ == ps[k].id@;
            assert(!can_be_set_up(ps, k));
        }
    }
    if c.foreground_transactions_per_round > 0 && c.poll_interval_ms > 0 {
        if forall|k: int| 0 <= k < ps.len() ==> #[trigger] can_be_set_up(ps, k) {
            assert forall|j: int| 0 <= j < ps.len() implies #[trigger] process_fault(ps, j) is None by {
                assert(can_be_set_up(ps, j));
            }
            lemma_first_fault(ps, 0, ps.len() as int);
        } else if c.fault() is None {
            lemma_no_fault(ps, 0);
            assert forall|k: int| 0 <= k < ps.len() implies #[trigger] can_be_set_up(ps, k) by {
                assert(process_fault(ps, k) is None);
            }
        }
    }
}

proof fn lemma_no_fault(ps: Seq<ProcessConfig>, i: int)
    requires
        0 <= i <= ps.len(),
        first_fault(ps, i) is None,
    ensures
        forall|k: int| i <= k < ps.len() ==> #[trigger] process_fault(ps, k) is None,
    decreases ps.len() - i,
{
    if i < ps.len() {
        lemma_no_fault(ps, i + 1);
        assert forall|k: int| i <= k < ps.len() implies #[trigger] process_fault(ps, k) is None by {
        }
    }
}

/// The first thing that is wrong with a configuration is told, and of its processes the first that
/// cannot be set up, by its name.
pub proof fn the_first_fault_is_told(c: SchedulerConfig, k: int)
    requires
        0 <= k < c.processes@.len(),
        forall|j: int| 0 <= j < k ==> #[trigger] can_be_set_up(c.processes@, j),
        !can_be_set_up(c.processes@, k),
    ensures
        ({
            let p = c.processes@[k];
            c.fault() == Some(
                if c.foreground_transactions_per_round == 0 {
                    "foreground_transactions_per_round must be greater than zero"@
                } else if c.poll_interval_ms == 0 {
                    "poll_interval_ms must be greater than zero"@
                } else if p.id@.len() == 0 {
                    "process id must not be empty"@
                } else if exists|j: int| 0 <= j < k && (#[trigger] c.processes@[j]).id@ == p.id@ {
                    "duplicate process id: "@ + p.id@
                } else if p.cycles == 0 {
                    "cycles for process "@ + p.id@ + " must be greater than zero"@
                } else {
                    "unknown engine for process "@ + p.id@ + ": "@ + p.engine@
                },
            )
        }),
{
    let ps = c.processes@;
    assert forall|j: int| 0 <= j < k implies #[trigger] process_fault(ps, j) is None by {
        assert(can_be_set_up(ps, j));
        crate::sweep::laws::strategies_are_named(ps[j].engine@);
    }
    lemma_first_fault(ps, 0, k);
    crate::sweep::laws::strategies_are_named(ps[k].engine@);
}

/// Why an identifier is refused: it is too long, does not start with `tx`, has no underscore, has
/// something other than digits before the first one, or else does not end in eight lower-case
/// letters and digits.
pub proof fn a_refused_identifier_is_told_why(s: Seq<char>, u: int)
    requires
        ({
            let b = encode_utf8(s);
            &&& 2 <= u
            &&& forall|j: int| 2 <= j < u && j < b.len() ==> #[trigger] b[j] != 95
            &&& u < b.len() ==> b[u] == 95
        }),
    ensures
        ({
            let b = encode_utf8(s);
            let digits = u > 2 && forall|j: int| 2 <= j < u ==> 48 <= #[trigger] b[j] <= 57;
            txid_error(s) == if b.len() > 63 {
                "txid too long: "@ + dec_text(b.len()) + " bytes (max 63)"@
            } else if b.len() < 2 || b[0] != 't' as u8 || b[1] != 'x' as u8 {
                "txid must start with 'tx'"@
            } else if u >= b.len() {
                "txid missing '_' separator"@
            } else if !digits {
                "txid count part must be non-empty digits"@
            } else {
                "txid suffix must be exactly8 lowercase alphanumeric characters"@
            }
        }),
{
    let b = encode_utf8(s);
    if b.len() >= 2 {
        lemma_underscore(b, 2, u);
        if u < b.len() {
            let d = b.subrange(2, u);
            if forall|j: int| 2 <= j < u ==> 48 <= #[trigger] b[j] <= 57 {
                assert forall|i: int| 0 <= i < d.len() implies crate::text::is_digit(
                    #[trigger] d[i],
                ) by {
                    assert(d[i] == b[i + 2]);
                }
            } else {
                let j = choose|j: int| 2 <= j < u && !(48 <= #[trigger] b[j] <= 57);
                assert(d[j - 2] == b[j]);
            }
        }
    }
}

proof fn lemma_underscore(b: Seq<u8>, i: int, u: int)
    requires
        0 <= i <= u,
        i <= b.len(),
        forall|j: int| i <= j < u && j < b.len() ==> #[trigger] b[j] != 95,
        u < b.len() ==> b[u] == 95,
    ensures
        underscore_from(b, i) == if u < b.len() {
            Some(u)
        } else {
            None
        },
    decreases b.len() - i,
{
    if i < b.len() && i < u {
        assert(b[i] != 95);
        lemma_underscore(b, i + 1, u);
    }
}

/// A client is told that writes are refused, or that its transaction was, and no detail of either;
/// the log names the transaction and tells the detail.
pub proof fn errors_are_told_with_care(txid: Seq<char>, detail: String)
    ensures
        EngineError::WalPoisoned.status() == 503,
        (EngineError::LoadFailed { detail }).status() == 422,
        EngineError::WalPoisoned.safe_text()
            == "write error on disk; writes refused (reads still serve)"@,
        (EngineError::LoadFailed { detail }).safe_text()
            == "transaction rejected by the kernel loader"@,
        EngineError::WalPoisoned.log_text(txid) == "tx "@ + txid
            + ": WAL poisoned, writes refused"@,
        (EngineError::LoadFailed { detail }).log_text(txid) == "tx "@ + txid + ": load failed: "@
            + detail@,
{
}

/// The two ways in which transactions race are told apart by their first word.
pub proof fn conflicts_are_told_apart()
    ensures
        "conflict: "@.is_prefix_of(Conflict::WriteWrite.text()),
        "phantom: "@.is_prefix_of(Conflict::Phantom.text()),
{
    reveal_strlit("conflict: ");
    reveal_strlit("phantom: ");
    reveal_strlit("conflict: a path this transaction wrote was concurrently written");
    reveal_strlit(
        "phantom: a pattern-scoped removal raced a concurrent insertion under the same prefix",
    );
}

/// A checkpoint is used where it is in the format of paths and its snapshot is there; else it is
/// told which of the two fails, and of what.
pub proof fn a_checkpoint_is_used_where_it_can_be(m: CkptMetaView, snapshot_exists: bool)
    ensures
        meta_refusal(m, snapshot_exists) is None <==> m.format == "paths"@ && snapshot_exists,
        m.format != "paths"@ ==> meta_refusal(m, snapshot_exists) == Some(
            "unsupported checkpoint format '"@ + m.format + "'"@,
        ),
        m.format == "paths"@ && !snapshot_exists ==> meta_refusal(m, snapshot_exists) == Some(
            "checkpoint.meta names missing snapshot '"@ + m.snapshot + "'"@,
        ),
{
}

/// An expression of a query may have 2048 bytes.
pub proof fn expressions_are_bounded()
    ensures
        crate::read::MAX_EXPRESSION == 2048,
{
}

} // verus!
