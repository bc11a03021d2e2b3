//! What the committer and recovery are for: a finished transaction is installed or rolled back and
//! answered accordingly, and a restart replays what was logged, or refuses.
use vstd::prelude::*;
use vstd::utf8::{encode_utf8, is_ascii_chars};

use crate::engine::{
    commit_shows, committed_log, id_number, recover_spec, recovery_inv,
    recovery_reproduces_the_committed_state, refusal, replay_base, replayed_spec, Answer,
    CommitOutcome, RecoveryView, ReplayView, TxResult,
};
use crate::mvcc::{
    difference, first_conflict, prefixes_view, CommittedView, Paths,
};
use crate::mvcc_laws::{
    an_end_takes_one_base, an_installation_changes_only_what_was_written,
    an_installation_is_recorded,
};
use crate::text::{ascii_bytes, dec_text, lemma_ascii_bytes, lemma_dec_text_ascii,
    lemma_dec_text_value, lemma_encode_concat};
use crate::transaction::{underscore_from, Event};
use crate::wal::record::RecView;
use crate::wal::segments::{append_adds_record, has_magic, loggable, segment_scan};
use crate::wal::writer::{FsyncPolicy, Wal};
use crate::worker::OutcomeView;
use crate::wrap::{suffix_text, txid_text};

verus! {

proof fn lemma_separator(b: Seq<u8>, i: int, u: int)
    requires
        0 <= i <= u < b.len(),
        b[u] == 95,
        forall|k: int| i <= k < u ==> #[trigger] b[k] != 95,
    ensures
        underscore_from(b, i) == Some(u),
    decreases u - i,
{
    if i < u {
        lemma_separator(b, i + 1, u);
    }
}

/// The number of an identifier is the one that was written into it, however large it is and
/// whatever follows it.
pub proof fn an_id_tells_its_number(count: u64, rest: Seq<char>)
    ensures
        id_number("tx"@ + dec_text(count as nat) + "_"@ + rest) == Some(count),
{
    let d = dec_text(count as nat);
    let t = "tx"@ + d + "_"@;
    reveal_strlit("tx");
    reveal_strlit("_");
    lemma_dec_text_ascii(count as nat);
    lemma_dec_text_value(count as nat);
    let n = d.len() as int;
    assert(is_ascii_chars(t)) by {
        assert forall|i: int| 0 <= i < t.len() implies '\0' <= #[trigger] t[i] <= '\u{7f}' by {
            if 2 <= i < 2 + n {
                assert(t[i] == d[i - 2]);
            }
        }
    }
    lemma_ascii_bytes(t);
    lemma_ascii_bytes(d);
    lemma_encode_concat(t, rest);
    let head = ascii_bytes(t);
    let b = encode_utf8(t + rest);
    assert(b == head + encode_utf8(rest));
    assert(head.len() == n + 3);
    assert(b[0] == 116 && b[1] == 120) by {
        assert(t[0] == 't' && t[1] == 'x');
    }
    assert(b[2 + n] == 95) by {
        assert(t[2 + n] == '_');
    }
    assert forall|k: int| 2 <= k < 2 + n implies 48 <= #[trigger] b[k] <= 57 by {
        assert(t[k] == d[k - 2]);
        assert('0' <= d[k - 2] <= '9');
    }
    lemma_separator(b, 2, 2 + n);
    assert(b.subrange(2, 2 + n) =~= encode_utf8(d)) by {
        assert forall|k: int| 0 <= k < n implies #[trigger] b.subrange(2, 2 + n)[k]
            == encode_utf8(d)[k] by {
            assert(t[k + 2] == d[k]);
        }
    }
    let digits = b.subrange(2, 2 + n);
    assert(digits.len() > 0 && digits[0] == b[2]);
}

/// The number that is read out of a generated identifier is the count it was generated with.
pub proof fn a_generated_id_tells_its_count(count: u64, n: u64)
    ensures
        id_number(txid_text(count, n)) == Some(count),
{
    an_id_tells_its_number(count, suffix_text(n as int, 8));
}

/// A log of generated identifiers never stops recovery on account of an identifier, and the counter
/// that recovery restores is the largest of the checkpoint's counter and the logged counts, so that
/// the next count is new.
pub proof fn recovery_restores_the_counter(
    r: RecoveryView,
    log: Seq<RecView>,
    run: spec_fn(RecView, Paths) -> ReplayView,
    counts: Seq<u64>,
    suffixes: Seq<u64>,
)
    requires
        recovery_inv(r),
        r.first_version == r.committed.version,
        committed_log(r.committed.btm, r.first_version, log, run),
        counts.len() == log.len(),
        suffixes.len() == log.len(),
        forall|k: int|
            0 <= k < log.len() ==> (#[trigger] log[k]).id == txid_text(counts[k], suffixes[k]),
    ensures
        recover_spec(r, log, run, log.len() as int) matches Ok(n) && {
            &&& n.max_tx >= r.max_tx
            &&& forall|k: int| 0 <= k < counts.len() ==> #[trigger] counts[k] <= n.max_tx
            &&& n.max_tx == r.max_tx || counts.contains(n.max_tx)
            &&& n.committed.version == r.committed.version + log.len()
        },
{
    let len = log.len() as int;
    recovery_reproduces_the_committed_state(r, log, run, len);
    assert forall|k: int| 0 <= k < log.len() implies id_number((#[trigger] log[k]).id) == Some(
        counts[k],
    ) by {
        a_generated_id_tells_its_count(counts[k], suffixes[k]);
    }
    lemma_largest(log, r.max_tx, counts, len);
    let n = recover_spec(r, log, run, len)->Ok_0;
    assert forall|k: int| 0 <= k < counts.len() implies #[trigger] counts[k] <= n.max_tx by {
        assert(id_number(log[k].id) == Some(counts[k]));
    }
}

proof fn lemma_largest(log: Seq<RecView>, start: u64, counts: Seq<u64>, k: int)
    requires
        0 <= k <= log.len(),
        counts.len() == log.len(),
        forall|j: int| 0 <= j < log.len() ==> id_number((#[trigger] log[j]).id) == Some(counts[j]),
    ensures
        ({
            let m = crate::engine::largest_number(log, start, k);
            m >= start && (m == start || counts.contains(m))
        }),
    decreases k,
{
    if k > 0 {
        lemma_largest(log, start, counts, k - 1);
        assert(id_number(log[k - 1].id) == Some(counts[k - 1]));
    }
}

/// A record is replayed from the state at the version that it was run on, and only where that
/// version is one that recovery has rebuilt.
pub proof fn a_replay_starts_where_the_run_started(r: RecoveryView, rec: RecView, count: u64, n: u64)
    requires
        recovery_inv(r),
        rec.id == txid_text(count, n),
    ensures
        r.first_version <= rec.base_version <= r.committed.version <==> replay_base(r, rec) is Ok,
        replay_base(r, rec) matches Ok(base) ==> base == r.snapshots[rec.base_version
            - r.first_version],
        rec.base_version == r.committed.version ==> replay_base(r, rec) == Ok::<Paths, Seq<char>>(
            r.committed.btm,
        ),
{
    a_generated_id_tells_its_count(count, n);
    if rec.base_version == r.committed.version {
        assert(r.snapshots[r.snapshots.len() - 1] == r.snapshots.last());
    }
}

/// A replay that does not do what was logged is refused: one that fails, one that takes another
/// number of steps, and one that leads to another version. Any other is installed: the state
/// changes by what the run wrote, the version goes up by one, and the new state is kept for later
/// records.
pub proof fn a_divergent_replay_is_refused(
    r: RecoveryView,
    rec: RecView,
    base: Paths,
    run: ReplayView,
    p: Seq<u8>,
)
    requires
        recovery_inv(r),
        r.committed.version < u64::MAX,
    ensures
        replayed_spec(r, rec, base, run) is Err <==> run.outcome is Failed || run.steps != rec.steps
            || rec.version != r.committed.version + 1,
        replayed_spec(r, rec, base, run) matches Ok(n) ==> {
            &&& n.committed.version == rec.version
            &&& n.first_version == r.first_version
            &&& n.snapshots.len() == r.snapshots.len() + 1
            &&& n.snapshots.drop_last() == r.snapshots
            &&& n.snapshots.last() == n.committed.btm
            &&& n.max_tx >= r.max_tx
            &&& run.btm.contains(p) && !base.contains(p) ==> n.committed.btm.contains(p)
            &&& base.contains(p) && !run.btm.contains(p) ==> !n.committed.btm.contains(p)
            &&& base.contains(p) == run.btm.contains(p) ==> (n.committed.btm.contains(p)
                <==> r.committed.btm.contains(p))
        },
{
    an_installation_changes_only_what_was_written(
        r.committed,
        base,
        run.btm,
        run.remove_prefixes,
        p,
    );
    if let Ok(n) = replayed_spec(r, rec, base, run) {
        assert(n.snapshots.drop_last() =~= r.snapshots);
    }
}

/// A transaction is refused exactly where its run failed, the log is broken, or it conflicts; a
/// failed run comes first and is refused for its own reason, whatever else holds.
pub proof fn a_refusal_has_its_reason(
    c: CommittedView,
    base: Paths,
    outcome: OutcomeView,
    finished: Paths,
    prefixes: Seq<Seq<u8>>,
    base_version: u64,
    poisoned: bool,
)
    ensures
        ({
            let conflict = first_conflict(
                difference(base, finished),
                prefixes,
                base_version,
                c.history,
                0,
            );
            let why = refusal(c, base, outcome, finished, prefixes, base_version, poisoned);
            &&& why is Some <==> outcome is Failed || poisoned || conflict is Some
            &&& outcome matches OutcomeView::Failed(e) ==> why == Some(e)
            &&& !(outcome is Failed) && !poisoned ==> (conflict matches Some(f) ==> why == Some(
                f.text(),
            ))
        }),
{
}

/// A transaction that is refused changes nothing and is told why: the state and the version stay,
/// nothing is logged, and the one event and the answer give the same reason.
pub proof fn a_refused_transaction_leaves_no_trace(
    before: CommittedView,
    base: Paths,
    result: TxResult,
    wal: Option<&Wal>,
    after: CommittedView,
    r: CommitOutcome,
)
    requires
        commit_shows(before, base, result, wal, after, r),
        result.outcome@ is Failed || (wal matches Some(w) && w.poisoned) || first_conflict(
            difference(base, result.btm@.dom()),
            prefixes_view(result.remove_prefixes@),
            result.base_version,
            before.history,
            0,
        ) is Some,
    ensures
        after.btm == before.btm,
        after.version == before.version,
        after.active_bases.to_multiset() == before.active_bases.to_multiset().remove(
            result.base_version,
        ),
        !r.installed,
        r.frame is None,
        r.events@.len() == 1,
        r.events@[0] matches Event::Abort { tx, reason, version } && tx@ == result.id@ && version
            == before.version && (r.answer matches Answer::Now(Err(text)) && text@ == reason@) && (
        result.outcome@ matches OutcomeView::Failed(e) ==> reason@ == e),
{
    an_end_takes_one_base(before, result.base_version);
}

/// A transaction that is accepted is installed whole: path by path the state changes by what it
/// wrote and by nothing else, the version goes up by one, the two events and the answer name the
/// transaction and that version, and who answers depends on when the log is synced.
pub proof fn an_accepted_transaction_is_installed_and_told(
    before: CommittedView,
    base: Paths,
    result: TxResult,
    wal: Option<&Wal>,
    after: CommittedView,
    r: CommitOutcome,
    p: Seq<u8>,
)
    requires
        commit_shows(before, base, result, wal, after, r),
        before.version < u64::MAX,
        !(result.outcome@ is Failed),
        !(wal matches Some(w) && w.poisoned),
        first_conflict(
            difference(base, result.btm@.dom()),
            prefixes_view(result.remove_prefixes@),
            result.base_version,
            before.history,
            0,
        ) is None,
    ensures
        r.installed,
        after.version == before.version + 1,
        result.btm@.dom().contains(p) && !base.contains(p) ==> after.btm.contains(p),
        base.contains(p) && !result.btm@.dom().contains(p) ==> !after.btm.contains(p),
        base.contains(p) == result.btm@.dom().contains(p) ==> (after.btm.contains(p)
            <==> before.btm.contains(p)),
        after.active_bases.to_multiset() == before.active_bases.to_multiset().remove(
            result.base_version,
        ),
        r.events@.len() == 2,
        r.events@[0] matches Event::Tx { tx, count, version } && tx@ == result.id@ && count
            == result.count && version == before.version + 1,
        result.outcome@ is Budget ==> (r.events@[1] matches Event::Budget { tx, steps, version }
            && tx@ == result.id@ && steps == result.steps && version == before.version + 1),
        result.outcome@ is Quiesced ==> (r.events@[1] matches Event::Quiescent { tx, version }
            && tx@ == result.id@ && version == before.version + 1),
        (wal matches Some(w) && w.policy == FsyncPolicy::Always) ==> (r.answer matches Answer::ByLog(
            ok,
        ) && ok.tx@ == result.id@ && ok.count == result.count && ok.version == before.version + 1),
        !(wal matches Some(w) && w.policy == FsyncPolicy::Always) ==> (r.answer matches Answer::Now(
            Ok(ok),
        ) && ok.tx@ == result.id@ && ok.count == result.count && ok.version == before.version + 1),
        wal is Some == r.frame is Some,
{
    let prefixes = prefixes_view(result.remove_prefixes@);
    let finished = result.btm@.dom();
    let n = crate::mvcc::install_spec(before, difference(base, finished), prefixes);
    an_installation_changes_only_what_was_written(before, base, finished, prefixes, p);
    an_installation_is_recorded(before, difference(base, finished), prefixes);
    an_end_takes_one_base(n, result.base_version);
}

/// What is logged of an accepted transaction reads back as that transaction: appended to any clean
/// segment it adds one record, with the transaction's identifier, source, base and steps and the
/// version that it got.
pub proof fn an_accepted_transaction_reads_back_from_the_log(
    before: CommittedView,
    base: Paths,
    result: TxResult,
    wal: Option<&Wal>,
    after: CommittedView,
    r: CommitOutcome,
    segment: Seq<u8>,
)
    requires
        commit_shows(before, base, result, wal, after, r),
        before.version < u64::MAX,
        r.frame is Some,
        has_magic(segment),
        segment_scan(segment).1 is None,
        loggable(
            RecView {
                id: result.id@,
                base_version: result.base_version,
                source: result.source@,
                steps: result.steps,
                version: (before.version + 1) as u64,
            },
        ),
    ensures
        segment_scan(segment + r.frame->0@).1 is None,
        segment_scan(segment + r.frame->0@).0.len() == segment_scan(segment).0.len() + 1,
        segment_scan(segment + r.frame->0@).0.drop_last() == segment_scan(segment).0,
        segment_scan(segment + r.frame->0@).0.last().id == result.id@,
        segment_scan(segment + r.frame->0@).0.last().source == result.source@,
        segment_scan(segment + r.frame->0@).0.last().base_version == result.base_version,
        segment_scan(segment + r.frame->0@).0.last().steps == result.steps,
        segment_scan(segment + r.frame->0@).0.last().version == before.version + 1,
{
    let rec = RecView {
        id: result.id@,
        base_version: result.base_version,
        source: result.source@,
        steps: result.steps,
        version: (before.version + 1) as u64,
    };
    append_adds_record(segment, rec);
    assert(segment_scan(segment).0.push(rec).drop_last() =~= segment_scan(segment).0);
}

} // verus!
