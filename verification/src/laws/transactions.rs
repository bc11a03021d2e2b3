//! Transactions: what is validated, installed, parked, listed and shown.
use std::collections::VecDeque;
use vstd::prelude::*;

use crate::engine::txid_count;
use crate::engine_laws::an_id_tells_its_number;
use crate::mvcc::{
    history_view, prefixes_view, validate, writeset, CommitRecord, Committed, Conflict, WriteSet,
};
use crate::mvcc_laws::{every_race_is_a_conflict, without_a_race_there_is_no_conflict};
use crate::paths::{PathMap, Present};
use crate::read::{dump_lines, export};
use crate::steps::{lines_from, pause_pending_execs, step_at, step_once};
use crate::steps_laws::{every_line_is_shown, every_pending_exec_is_parked};
use crate::text::{dec_text, readable_text};
use crate::transaction::{texts_view, TxId};
use crate::worker::{BudgetAction, Run, RunAction, StepOutcome, WorkerOutcome};
use crate::wrap::{gen_txid, unwrapped_text};

verus! {

/// A transaction is refused where it adds a path that a later commit removed, removes one that it
/// added, adds one below any of the prefixes that it removed by, or removed by any prefix with one
/// below it that it added.
pub proof fn validation_sees_every_race(
    ws: &WriteSet,
    remove_prefixes: &Vec<Vec<u8>>,
    base_version: u64,
    history: &VecDeque<CommitRecord>,
    r: Result<(), Conflict>,
    k: int,
    i: int,
    p: Seq<u8>,
)
    requires
        call_ensures(validate, (ws, remove_prefixes, base_version, history), r),
        0 <= k < history@.len(),
        history@[k].version > base_version,
    ensures
        ws.added@.contains_key(p) && history@[k].removed@.contains_key(p) ==> r is Err,
        ws.removed@.contains_key(p) && history@[k].added@.contains_key(p) ==> r is Err,
        0 <= i < history@[k].remove_prefixes@.len() && history@[k].remove_prefixes@[i]@.is_prefix_of(
            p,
        ) && ws.added@.contains_key(p) ==> r is Err,
        0 <= i < remove_prefixes@.len() && remove_prefixes@[i]@.is_prefix_of(p)
            && history@[k].added@.contains_key(p) ==> r is Err,
{
    let h = history_view(history@);
    let ps = prefixes_view(remove_prefixes@);
    every_race_is_a_conflict(ws@, ps, base_version, h, k);
    assert(h[k] == history@[k]@);
    if 0 <= i < history@[k].remove_prefixes@.len() {
        assert(h[k].remove_prefixes[i] == history@[k].remove_prefixes@[i]@);
    }
    if 0 <= i < remove_prefixes@.len() {
        assert(ps[i] == remove_prefixes@[i]@);
    }
    assert(ws@.added.contains(p) <==> ws.added@.contains_key(p));
    assert(ws@.removed.contains(p) <==> ws.removed@.contains_key(p));
    assert(h[k].added.contains(p) <==> history@[k].added@.contains_key(p));
    assert(h[k].removed.contains(p) <==> history@[k].removed@.contains_key(p));
}

/// A transaction that races with none of the later commits is accepted.
pub proof fn validation_refuses_nothing_else(
    ws: &WriteSet,
    remove_prefixes: &Vec<Vec<u8>>,
    base_version: u64,
    history: &VecDeque<CommitRecord>,
    r: Result<(), Conflict>,
)
    requires
        call_ensures(validate, (ws, remove_prefixes, base_version, history), r),
        forall|k: int, p: Seq<u8>|
            #![trigger history@[k], ws.added@.contains_key(p)]
            0 <= k < history@.len() && history@[k].version > base_version && ws.added@.contains_key(
                p,
            ) ==> !history@[k].removed@.contains_key(p) && forall|i: int|
                0 <= i < history@[k].remove_prefixes@.len()
                    ==> !(#[trigger] history@[k].remove_prefixes@[i])@.is_prefix_of(p),
        forall|k: int, p: Seq<u8>|
            #![trigger history@[k].added@.contains_key(p)]
            0 <= k < history@.len() && history@[k].version > base_version
                && history@[k].added@.contains_key(p) ==> !ws.removed@.contains_key(p) && forall|
                i: int,
            |
                0 <= i < remove_prefixes@.len() ==> !(#[trigger] remove_prefixes@[i])@.is_prefix_of(
                    p,
                ),
    ensures
        r is Ok,
{
    let h = history_view(history@);
    let ps = prefixes_view(remove_prefixes@);
    assert forall|k: int, p: Seq<u8>|
        #![trigger h[k], ws@.added.contains(p)]
        0 <= k < h.len() && h[k].version > base_version && ws@.added.contains(
            p,
        ) implies !h[k].removed.contains(p) by {
        assert(h[k] == history@[k]@);
        assert(ws.added@.contains_key(p));
    }
    assert forall|k: int, p: Seq<u8>|
        #![trigger h[k], ws@.removed.contains(p)]
        0 <= k < h.len() && h[k].version > base_version && ws@.removed.contains(
            p,
        ) implies !h[k].added.contains(p) by {
        assert(h[k] == history@[k]@);
        if h[k].added.contains(p) {
            assert(history@[k].added@.contains_key(p));
        }
    }
    assert forall|k: int, i: int, p: Seq<u8>|
        #![trigger h[k].remove_prefixes[i], ws@.added.contains(p)]
        0 <= k < h.len() && h[k].version > base_version && 0 <= i < h[k].remove_prefixes.len()
            && ws@.added.contains(p) implies !h[k].remove_prefixes[i].is_prefix_of(p) by {
        assert(h[k] == history@[k]@);
        assert(h[k].remove_prefixes[i] == history@[k].remove_prefixes@[i]@);
        assert(ws.added@.contains_key(p));
    }
    assert forall|k: int, i: int, p: Seq<u8>|
        #![trigger ps[i], h[k].added.contains(p)]
        0 <= k < h.len() && h[k].version > base_version && 0 <= i < ps.len() && h[k].added.contains(
            p,
        ) implies !ps[i].is_prefix_of(p) by {
        assert(h[k] == history@[k]@);
        assert(ps[i] == remove_prefixes@[i]@);
        assert(history@[k].added@.contains_key(p));
    }
    without_a_race_there_is_no_conflict(ws@, ps, base_version, h);
}

/// A write set holds what was added and what was removed, and nothing else.
pub proof fn a_write_set_is_the_change(
    base: &PathMap<Present>,
    finished: &PathMap<Present>,
    r: WriteSet,
    p: Seq<u8>,
)
    requires
        call_ensures(writeset, (base, finished), r),
    ensures
        r.added@.contains_key(p) <==> finished@.contains_key(p) && !base@.contains_key(p),
        r.removed@.contains_key(p) <==> base@.contains_key(p) && !finished@.contains_key(p),
{
    assert(r@.added.contains(p) <==> r.added@.contains_key(p));
    assert(r@.removed.contains(p) <==> r.removed@.contains_key(p));
}

/// A transaction starts from the current version, and that is remembered once more.
pub proof fn a_beginning_is_remembered(c: &mut Committed, r: u64)
    requires
        call_ensures(Committed::begin, (c,), r),
    ensures
        r == old(c).version,
        final(c).version == old(c).version,
        final(c).btm@ == old(c).btm@,
        final(c).active_bases@ == old(c).active_bases@.push(r),
{
    assert(final(c)@.active_bases == final(c).active_bases@);
    assert(final(c)@.version == final(c).version);
    assert(old(c)@.active_bases == old(c).active_bases@);
}

/// What is installed is there afterwards, what it removed is not, and nothing else changes; the
/// version is the next one, and the record holds all that was handed over.
pub proof fn an_installation_keeps_its_word(
    c: &mut Committed,
    ws: WriteSet,
    remove_prefixes: Vec<Vec<u8>>,
    r: u64,
    p: Seq<u8>,
    i: int,
)
    requires
        call_ensures(Committed::install, (c, ws, remove_prefixes), r),
        !(ws.added@.contains_key(p) && ws.removed@.contains_key(p)),
        old(c).version < u64::MAX,
    ensures
        r == old(c).version + 1,
        final(c).version == r,
        ws.added@.contains_key(p) ==> final(c).btm@.contains_key(p),
        ws.removed@.contains_key(p) ==> !final(c).btm@.contains_key(p),
        !ws.added@.contains_key(p) && !ws.removed@.contains_key(p) ==> (
        final(c).btm@.contains_key(p) <==> old(c).btm@.contains_key(p)),
        final(c).active_bases@ == old(c).active_bases@,
        final(c).history@.len() == old(c).history@.len() + 1,
        final(c).history@.last().version == r,
        final(c).history@.last().added@.contains_key(p) == ws.added@.contains_key(p),
        final(c).history@.last().removed@.contains_key(p) == ws.removed@.contains_key(p),
        final(c).history@.last().remove_prefixes@.len() == remove_prefixes@.len(),
        0 <= i < remove_prefixes@.len() ==> final(c).history@.last().remove_prefixes@[i]@
            == remove_prefixes@[i]@,
{
    let ps = prefixes_view(remove_prefixes@);
    crate::mvcc_laws::an_installation_is_recorded(old(c)@, ws@, ps);
    let n = final(c)@;
    let last = final(c).history@.last();
    assert(n.history.last() == last@);
    assert(n.history == history_view(final(c).history@));
    assert(n.history.len() == final(c).history@.len());
    assert(old(c)@.history.len() == old(c).history@.len());
    assert(last@.added.contains(p) <==> last.added@.contains_key(p));
    assert(last@.removed.contains(p) <==> last.removed@.contains_key(p));
    assert(ws@.added.contains(p) <==> ws.added@.contains_key(p));
    assert(ws@.removed.contains(p) <==> ws.removed@.contains_key(p));
    assert(n.btm.contains(p) <==> final(c).btm@.contains_key(p));
    assert(old(c)@.btm.contains(p) <==> old(c).btm@.contains_key(p));
    assert(prefixes_view(last.remove_prefixes@) == ps);
    assert(prefixes_view(last.remove_prefixes@).len() == last.remove_prefixes@.len());
    if 0 <= i < remove_prefixes@.len() {
        assert(ps[i] == remove_prefixes@[i]@);
        assert(prefixes_view(last.remove_prefixes@)[i] == last.remove_prefixes@[i]@);
    }
}

/// The number of an identifier is what its digits write, whatever it is, up to 64 bits.
pub proof fn numbers_of_identifiers_are_read(id: &str, n: u64, rest: Seq<char>, r: Option<u64>)
    requires
        call_ensures(txid_count, (id,), r),
        id@ == "tx"@ + dec_text(n as nat) + "_"@ + rest,
    ensures
        r == Some(n),
{
    an_id_tells_its_number(n, rest);
}

/// A generated identifier tells the count that it was generated for.
pub proof fn generated_identifiers_are_counted(
    count: u64,
    id: TxId,
    text: &str,
    r: Option<u64>,
)
    requires
        call_ensures(gen_txid, (count,), id),
        text@ == id@,
        call_ensures(txid_count, (text,), r),
    ensures
        r == Some(count),
{
    let n = choose|n: u64| id@ == #[trigger] crate::wrap::txid_text(count, n);
    an_id_tells_its_number(count, crate::wrap::suffix_text(n as int, 8));
}

/// Every line of a listing that is not empty is parked, in order, and the listing is handed back as
/// it is; only an empty listing parks nothing.
pub proof fn all_execs_are_parked(listing: &[u8], r: Option<(String, String)>)
    requires
        call_ensures(pause_pending_execs, (listing,), r),
    ensures
        r is None <==> listing@.len() == 0,
        r matches Some((execs, paused)) ==> execs@ == readable_text(listing@) && paused@
            == lines_from(readable_text(listing@), 0).filter(
            |l: Seq<char>| l.len() > 0,
        ).map_values(|l: Seq<char>| "(paused "@ + l + ")\n"@).flatten(),
{
    every_pending_exec_is_parked(lines_from(readable_text(listing@), 0));
}

/// Every line of a listing that is not empty is exported, unwrapped and in order.
pub proof fn all_lines_are_exported(listing: &[u8], r: String)
    requires
        call_ensures(export, (listing,), r),
    ensures
        r@ == lines_from(readable_text(listing@), 0).filter(|l: Seq<char>| l.len() > 0).map_values(
            |l: Seq<char>| unwrapped_text(l).0 + seq!['\n'],
        ).flatten(),
{
    every_line_is_shown(lines_from(readable_text(listing@), 0));
}

/// Every line of a listing that is not empty is dumped, unwrapped and in order.
pub proof fn all_lines_are_dumped(listing: &[u8], r: Vec<String>)
    requires
        call_ensures(dump_lines, (listing,), r),
    ensures
        r@.map_values(|s: String| s@) == lines_from(readable_text(listing@), 0).filter(
            |l: Seq<char>| l.len() > 0,
        ).map_values(|l: Seq<char>| unwrapped_text(l).0),
{
    every_line_is_shown(lines_from(readable_text(listing@), 0));
    assert(texts_view(r@) =~= r@.map_values(|s: String| s@));
}

/// A step that ran an exec tells whether it failed, and of which exec and why; where none ran there
/// is nothing to tell.
pub proof fn a_step_tells_how_it_went(
    done: usize,
    listing: &str,
    error: Option<&str>,
    r: Option<StepOutcome>,
)
    requires
        call_ensures(step_at, (done, listing, error), r),
    ensures
        r is None <==> done == 0,
        done > 0 && error is None ==> r == Some(StepOutcome::Stepped),
        done > 0 && error is Some ==> (r matches Some(StepOutcome::Failed(t)) && t@ == "exec "@
            + unwrapped_text(listing@).0 + ": "@ + error->0@),
{
}

/// A transaction's own execs come before any others; where there are none at all it is done.
pub proof fn own_execs_come_first(
    own: Option<StepOutcome>,
    anywhere: Option<StepOutcome>,
    r: StepOutcome,
)
    requires
        call_ensures(step_once, (own, anywhere), r),
    ensures
        own is Some ==> r == own->0,
        own is None && anywhere is Some ==> r == anywhere->0,
        own is None && anywhere is None ==> r == StepOutcome::Done,
{
}

/// A run that has steps left takes one; one that has none parks what is pending, or fails where
/// that is asked for; a refused load fails at once.
pub proof fn a_run_starts_with_its_budget(
    loaded: Result<usize, String>,
    budget: u64,
    action: BudgetAction,
    r: (Run, RunAction),
)
    requires
        call_ensures(Run::start, (loaded, budget, action), r),
    ensures
        r.0.step_budget == budget,
        r.0.budget_action == action,
        r.0.steps == 0,
        loaded matches Ok(n) ==> r.0.count == n && if budget > 0 {
            r.1 is Step
        } else if action == BudgetAction::Commit {
            r.1 is Park
        } else {
            r.1 matches RunAction::Finish(WorkerOutcome::Failed(_))
        },
        loaded matches Err(e) ==> (r.1 matches RunAction::Finish(WorkerOutcome::Failed(t)) && t@
            == "load failed: "@ + e@),
{
    let v = r.1@;
}

/// Each step counts once; a run that is done or that failed ends there, and one that has used up
/// its budget parks what is pending, or fails where that is asked for.
pub proof fn a_run_goes_on_within_its_budget(run: &mut Run, outcome: StepOutcome, r: RunAction)
    requires
        call_ensures(Run::stepped, (run, outcome), r),
        old(run).steps < old(run).step_budget,
    ensures
        final(run).step_budget == old(run).step_budget,
        final(run).budget_action == old(run).budget_action,
        final(run).count == old(run).count,
        outcome is Stepped ==> final(run).steps == old(run).steps + 1 && if final(run).steps
            < old(run).step_budget {
            r is Step
        } else if old(run).budget_action == BudgetAction::Commit {
            r is Park
        } else {
            r matches RunAction::Finish(WorkerOutcome::Failed(_))
        },
        !(outcome is Stepped) ==> final(run).steps == old(run).steps,
        outcome is Done ==> r matches RunAction::Finish(WorkerOutcome::Quiesced),
        outcome matches StepOutcome::Failed(e) ==> (r matches RunAction::Finish(
            WorkerOutcome::Failed(t),
        ) && t@ == e@),
{
    let v = r@;
    let o = outcome@;
}

/// A run that parked what was pending ended at its budget; where parking failed it failed.
pub proof fn a_parked_run_ended_at_its_budget(run: &Run, outcome: Result<(), String>, r: RunAction)
    requires
        call_ensures(Run::parked, (run, outcome), r),
    ensures
        outcome is Ok ==> r matches RunAction::Finish(WorkerOutcome::Budget),
        outcome matches Err(e) ==> (r matches RunAction::Finish(WorkerOutcome::Failed(t)) && t@
            == "parking execs: "@ + e@),
{
    let v = r@;
}

} // verus!
