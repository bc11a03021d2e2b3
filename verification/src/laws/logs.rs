//! Logs: what is recorded and read back, which files are kept, and what is committed and recovered.
use vstd::prelude::*;
use vstd::utf8::encode_utf8;

use crate::engine::{check_meta, Answer, CommitOutcome, Committer, Job, Recovery, TxResult};
use crate::engine_laws::{
    a_refused_transaction_leaves_no_trace, an_accepted_transaction_is_installed_and_told,
};
use crate::mvcc::{difference, first_conflict, prefixes_view, Committed};
use crate::paths::{PathMap, Present};
use crate::transaction::{Event, TxId};
use crate::wal::files::{
    is_leftover, is_superseded, list_segments, newest_segment, snapshot_name, CkptMeta,
};
use crate::wal::record::{decode_payload, encode_payload, frame, OwnedRec, Rec};
use crate::wal::segments::{
    all_loggable, all_records, log_roundtrip, parse_seg_name, read_segments, seg_path, segment_of,
    Corrupt, Repair,
};
use crate::wal::writer::{Appended, FsyncPolicy, Wal};
use crate::worker::WorkerOutcome;

verus! {

/// A record reads back field by field as it was recorded.
pub proof fn a_record_reads_back(
    rec: &Rec,
    p: Vec<u8>,
    bytes: &[u8],
    r: Result<OwnedRec, String>,
)
    requires
        call_ensures(encode_payload, (rec,), p),
        bytes@ == p@,
        call_ensures(decode_payload, (bytes,), r),
        encode_utf8(rec@.id).len() <= 255,
    ensures
        match (*rec, r) {
            (
                Rec::Commit { id, base_version, source, steps, version },
                Ok(
                    OwnedRec::Commit {
                        id: id2,
                        base_version: base2,
                        source: source2,
                        steps: steps2,
                        version: version2,
                    },
                ),
            ) => id2@ == id@ && base2 == base_version && source2@ == source@ && steps2 == steps
                && version2 == version,
            _ => false,
        },
{
    crate::wal::record::payload_roundtrip(rec@);
}

/// A frame is the length of the record, its checksum and the record, the two numbers with their
/// lowest byte first.
pub proof fn a_frame_carries_its_record(rec: &Rec, p: Vec<u8>, f: Vec<u8>)
    requires
        call_ensures(encode_payload, (rec,), p),
        call_ensures(frame, (rec,), f),
        p@.len() <= u32::MAX,
    ensures
        f@.len() == p@.len() + 8,
        f@[0] + f@[1] * 256 + f@[2] * 65536 + f@[3] * 16777216 == p@.len(),
        f@[4] + f@[5] * 256 + f@[6] * 65536 + f@[7] * 16777216 == crate::wal::record::crc32(p@),
        f@.skip(8) == p@,
{
    let n = p@.len() as int;
    let c = crate::wal::record::crc32(p@) as int;
    let a = crate::bytes::le4_bytes(n);
    let b = crate::bytes::le4_bytes(c);
    crate::wal::laws::numbers_are_little_endian(n);
    crate::wal::laws::numbers_are_little_endian(c);
    assert(f@ == a + b + p@);
    assert(f@.skip(8) =~= p@);
}

/// A log that has failed takes no record, and any other takes it as a frame.
pub proof fn a_failed_log_takes_nothing(w: &Wal, rec: &Rec, f: Vec<u8>, r: Appended)
    requires
        call_ensures(Wal::append, (w, rec), r),
        call_ensures(frame, (rec,), f),
    ensures
        r is Refused <==> w.poisoned,
        r matches Appended::Queued(b) ==> b@ == f@,
{
}

/// A checkpoint is taken on where none is under way, the log is in order and someone is there to
/// make it; then one is under way until it is done.
pub proof fn one_checkpoint_at_a_time(w: &mut Wal, connected: bool, r: bool, d: &mut Wal)
    requires
        call_ensures(Wal::checkpoint, (w, connected), r),
        call_ensures(Wal::checkpoint_done, (d,), ()),
    ensures
        r <==> !old(w).ckpt_busy && !old(w).poisoned && connected,
        r ==> final(w).ckpt_busy,
        !r ==> final(w).ckpt_busy == old(w).ckpt_busy,
        final(w).poisoned == old(w).poisoned,
        final(w).policy == old(w).policy,
        !final(d).ckpt_busy,
        final(d).poisoned == old(d).poisoned,
        final(d).policy == old(d).policy,
{
}

/// A segment's name tells its number.
pub proof fn a_segment_name_tells_its_number(n: u64, s: String, name: &str, r: Option<u64>)
    requires
        call_ensures(seg_path, (n,), s),
        name@ == s@,
        call_ensures(parse_seg_name, (name,), r),
    ensures
        r == Some(n),
{
    crate::wal::segments::segment_name_roundtrip(n);
}

/// A temporary file and any snapshot but the one to keep are left over, and nothing else is.
pub proof fn leftovers_are_found(name: &[u8], kept: &Option<String>, r: bool)
    requires
        call_ensures(is_leftover, (name, kept), r),
    ensures
        r <==> {
            ||| name@.len() > 4 && encode_utf8(".tmp"@).is_suffix_of(name@)
            ||| vstd::utf8::valid_utf8(name@) && encode_utf8("checkpoint-"@).is_prefix_of(name@)
                && !(*kept matches Some(k) && k@ == vstd::utf8::decode_utf8(name@))
        },
{
    crate::wal::file_laws::leftovers_are_temporary_or_old(
        name@,
        match kept {
            Some(k) => Some(k@),
            None => None,
        },
    );
}

/// The checkpoint that was installed is not superseded, nor is a segment that it leaves to be read.
pub proof fn what_is_installed_stays(
    version: u64,
    format: &str,
    n: String,
    installed: &str,
    first: u64,
    seq: u64,
    s: String,
    segment: &str,
    a: bool,
    b: bool,
)
    requires
        call_ensures(snapshot_name, (version, format), n),
        installed@ == n@,
        call_ensures(seg_path, (seq,), s),
        segment@ == s@,
        seq >= first,
        !crate::bytes::ends_with(encode_utf8(n@), crate::wal::files::tmp_suffix()),
        call_ensures(is_superseded, (installed, installed, first), a),
        call_ensures(is_superseded, (segment, installed, first), b),
    ensures
        !a,
        !b,
{
    crate::wal::files::installed_checkpoint_survives(version, format@, seq, first);
}

/// A segment before the first that is still to be read is superseded.
pub proof fn older_segments_go(seq: u64, s: String, segment: &str, installed: &str, first: u64, r: bool)
    requires
        call_ensures(seg_path, (seq,), s),
        segment@ == s@,
        seq < first,
        call_ensures(is_superseded, (segment, installed, first), r),
    ensures
        r,
{
    crate::wal::segments::segment_name_roundtrip(seq);
}

/// The description of a checkpoint reads back part by part as it was stored.
pub proof fn a_description_reads_back(
    m: &CkptMeta,
    t: String,
    bytes: &[u8],
    r: Result<CkptMeta, Corrupt>,
)
    requires
        call_ensures(CkptMeta::store_text, (m,), t),
        bytes@ == encode_utf8(t@),
        call_ensures(CkptMeta::load_bytes, (bytes,), r),
    ensures
        r matches Ok(n) && n.snapshot@ == m.snapshot@ && n.format@ == m.format@ && n.version
            == m.version && n.tx_counter == m.tx_counter && n.first_segment == m.first_segment,
{
}

/// A checkpoint is used where it is in the format of paths and its snapshot is there.
pub proof fn a_usable_checkpoint_is_used(m: &CkptMeta, snapshot_exists: bool, r: Result<(), String>)
    requires
        call_ensures(check_meta, (m, snapshot_exists), r),
    ensures
        r is Ok <==> m.format@ == "paths"@ && snapshot_exists,
{
}

/// Segments read back as all that was recorded in them, in order, from the first that is asked for.
pub proof fn segments_read_back(
    segs: &Vec<(u64, Vec<u8>)>,
    first: u64,
    parts: Seq<(u64, Seq<crate::wal::record::RecView>)>,
    r: Result<(Vec<OwnedRec>, Option<Repair>), Corrupt>,
)
    requires
        call_ensures(read_segments, (segs, first), r),
        segs@.len() == parts.len(),
        forall|k: int| 0 <= k < parts.len() ==> all_loggable((#[trigger] parts[k]).1),
        forall|k: int|
            0 <= k < parts.len() ==> (#[trigger] segs@[k]).0 == parts[k].0 && segs@[k].0 >= first
                && segs@[k].1@ == segment_of(parts[k].1),
    ensures
        r matches Ok((recs, repair)) && repair is None && recs@.map_values(|o: OwnedRec| o@)
            == all_records(parts, 0),
{
    let view = crate::wal::segments::segs_view(segs@);
    let keep = |s: (u64, Seq<u8>)| s.0 >= first;
    assert forall|k: int| 0 <= k < view.len() implies keep(#[trigger] view[k]) by {
        assert(view[k] == (segs@[k].0, segs@[k].1@));
    }
    lemma_all_kept(view, keep);
    assert forall|k: int| 0 <= k < parts.len() implies #[trigger] view[k] == (
        parts[k].0,
        segment_of(parts[k].1),
    ) by {
        assert(view[k] == (segs@[k].0, segs@[k].1@));
    }
    log_roundtrip(parts, view, 0);
}

proof fn lemma_all_kept<T>(s: Seq<T>, keep: spec_fn(T) -> bool)
    requires
        forall|k: int| 0 <= k < s.len() ==> keep(#[trigger] s[k]),
    ensures
        s.filter(keep) == s,
    decreases s.len(),
{
    reveal_with_fuel(Seq::filter, 1);
    if s.len() > 0 {
        assert forall|k: int| 0 <= k < s.drop_last().len() implies keep(#[trigger] s.drop_last()[k]) by {
            assert(s.drop_last()[k] == s[k]);
        }
        lemma_all_kept(s.drop_last(), keep);
        assert(keep(s[s.len() - 1]));
        assert(s.drop_last().push(s.last()) =~= s);
    } else {
        assert(s.filter(keep) =~= s);
    }
}

/// A transaction that is handed out starts from the committed state at its version, both of which
/// are remembered under its identifier.
pub proof fn a_transaction_starts_from_the_committed_state(
    c: &mut Committer,
    id: TxId,
    source: String,
    job: Job,
)
    requires
        call_ensures(Committer::dispatch, (c, id, source), job),
    ensures
        job.id@ == id@,
        job.source == source,
        job.base_version == old(c).committed.version,
        job.base@.dom() == old(c).committed.btm@.dom(),
        final(c).bases@.contains_key(id@),
        final(c).bases@[id@]@.dom() == old(c).committed.btm@.dom(),
        final(c).active@.contains_key(id@),
        final(c).committed.version == old(c).committed.version,
        final(c).committed.active_bases@ == old(c).committed.active_bases@.push(
            old(c).committed.version,
        ),
{
    assert(final(c).committed@.version == final(c).committed.version);
    assert(final(c).committed@.active_bases == final(c).committed.active_bases@);
    assert(old(c).committed@.active_bases == old(c).committed.active_bases@);
    assert(old(c).committed@.btm == old(c).committed.btm@.dom());
    assert(final(c).bases@.contains_key(id@));
}

/// A transaction that failed, that raced, or that the log cannot record leaves the state as it was;
/// its client is told why, and nobody sees anything of it but its end.
pub proof fn a_refused_commit_changes_nothing(
    c: &mut Committer,
    result: TxResult,
    wal: Option<&Wal>,
    r: CommitOutcome,
)
    requires
        call_ensures(Committer::commit, (c, result, wal), r),
        result.outcome is Failed || (wal matches Some(w) && w.poisoned) || first_conflict(
            difference(old(c).bases@[result.id@]@.dom(), result.btm@.dom()),
            prefixes_view(result.remove_prefixes@),
            result.base_version,
            old(c).committed@.history,
            0,
        ) is Some,
    ensures
        final(c).committed.btm@.dom() == old(c).committed.btm@.dom(),
        final(c).committed.version == old(c).committed.version,
        !final(c).bases@.contains_key(result.id@),
        !final(c).active@.contains_key(result.id@),
        !r.installed,
        r.frame is None,
        r.events@.len() == 1,
        r.events@[0] matches Event::Abort { tx, reason, version } && tx@ == result.id@ && version
            == old(c).committed.version && (r.answer matches Answer::Now(Err(text)) && text@
            == reason@) && (result.outcome matches WorkerOutcome::Failed(e) ==> reason@ == e@),
{
    let o = result.outcome@;
    a_refused_transaction_leaves_no_trace(
        old(c).committed@,
        old(c).bases@[result.id@]@.dom(),
        result,
        wal,
        final(c).committed@,
        r,
    );
    assert(final(c).committed@.btm == final(c).committed.btm@.dom());
    assert(final(c).committed@.version == final(c).committed.version);
}

/// A transaction that did not fail and raced with none is installed at the next version: what it
/// added is there, what it removed is not, and nothing else changes. Everyone is told, and its
/// client once the log says so where that is the policy.
pub proof fn an_accepted_commit_is_installed(
    c: &mut Committer,
    result: TxResult,
    wal: Option<&Wal>,
    r: CommitOutcome,
    p: Seq<u8>,
)
    requires
        call_ensures(Committer::commit, (c, result, wal), r),
        old(c).committed.version < u64::MAX,
        !(result.outcome is Failed),
        !(wal matches Some(w) && w.poisoned),
        first_conflict(
            difference(old(c).bases@[result.id@]@.dom(), result.btm@.dom()),
            prefixes_view(result.remove_prefixes@),
            result.base_version,
            old(c).committed@.history,
            0,
        ) is None,
    ensures
        ({
            let base = old(c).bases@[result.id@]@;
            let version = old(c).committed.version + 1;
            &&& r.installed
            &&& final(c).committed.version == version
            &&& result.btm@.contains_key(p) && !base.contains_key(p) ==> final(
                c).committed.btm@.contains_key(p)
            &&& base.contains_key(p) && !result.btm@.contains_key(p) ==> !final(
                c).committed.btm@.contains_key(p)
            &&& base.contains_key(p) == result.btm@.contains_key(p) ==> (final(
                c).committed.btm@.contains_key(p) <==> old(c).committed.btm@.contains_key(p))
            &&& r.events@.len() == 2
            &&& r.events@[0] matches Event::Tx { tx, count, version: v } && tx@ == result.id@
                && count == result.count && v == version
            &&& result.outcome is Budget ==> (r.events@[1] matches Event::Budget {
                tx,
                steps,
                version: v,
            } && tx@ == result.id@ && steps == result.steps && v == version)
            &&& result.outcome is Quiesced ==> (r.events@[1] matches Event::Quiescent {
                tx,
                version: v,
            } && tx@ == result.id@ && v == version)
            &&& (wal matches Some(w) && w.policy == FsyncPolicy::Always)
                ==> r.answer is ByLog
            &&& !(wal matches Some(w) && w.policy == FsyncPolicy::Always) ==> (
            r.answer matches Answer::Now(Ok(ok)) && ok.tx@ == result.id@ && ok.count == result.count
                && ok.version == version)
            &&& wal is Some == r.frame is Some
        }),
{
    let o = result.outcome@;
    an_accepted_transaction_is_installed_and_told(
        old(c).committed@,
        old(c).bases@[result.id@]@.dom(),
        result,
        wal,
        final(c).committed@,
        r,
        p,
    );
    assert(final(c).committed@.version == final(c).committed.version);
    assert(final(c).committed@.btm.contains(p) <==> final(c).committed.btm@.contains_key(p));
    assert(old(c).committed@.btm.contains(p) <==> old(c).committed.btm@.contains_key(p));
}

/// Recovery starts from the checkpoint, where there is one, and else from nothing.
pub proof fn recovery_starts_from_the_checkpoint(
    checkpoint: Option<(&CkptMeta, PathMap<Present>)>,
    r: Recovery,
)
    requires
        call_ensures(Recovery::start, (checkpoint,), r),
    ensures
        checkpoint matches Some((m, btm)) ==> r.committed.btm@.dom() == btm@.dom()
            && r.committed.version == m.version && r.first_version == m.version && r.max_tx
            == m.tx_counter,
        checkpoint is None ==> r.committed.btm@.dom() == Set::<Seq<u8>>::empty()
            && r.committed.version == 0 && r.first_version == 0 && r.max_tx == 0,
{
    assert(r@.committed.version == r.committed.version);
    assert(r@.committed.btm == r.committed.btm@.dom());
}

/// Recovery ends with the state that it reached and the largest number that it saw; no history is
/// kept, as nothing is running.
pub proof fn recovery_ends_with_what_it_reached(rec: Recovery, r: (Committed, u64))
    requires
        call_ensures(Recovery::finish, (rec,), r),
    ensures
        r.0.btm@.dom() == rec.committed.btm@.dom(),
        r.0.version == rec.committed.version,
        r.0.history@.len() == 0,
        r.1 == rec.max_tx,
{
    assert(r.0@.version == r.0.version);
    assert(r.0@.btm == r.0.btm@.dom());
    assert(r.0@.history.len() == r.0.history@.len());
}

/// A replay starts from the state that its transaction started from, which is kept for every
/// version since the checkpoint; from any other version it is refused.
pub proof fn a_replay_starts_from_its_base(
    rec: &Recovery,
    log: &OwnedRec,
    count: u64,
    n: u64,
    r: Result<PathMap<Present>, String>,
)
    requires
        call_ensures(Recovery::base_for, (rec, log), r),
        crate::engine::recovery_inv(rec@),
        log@.id == crate::wrap::txid_text(count, n),
    ensures
        r is Ok <==> rec.first_version <= log@.base_version <= rec.committed.version,
        r matches Ok(base) ==> base@.dom() == rec.snapshots@[log@.base_version
            - rec.first_version]@.dom(),
{
    crate::engine_laws::a_replay_starts_where_the_run_started(rec@, log@, count, n);
    assert(rec@.committed.version == rec.committed.version);
    let s = crate::engine::snapshots_view(rec.snapshots@);
    assert(s.len() == rec.snapshots@.len());
    if r is Ok {
        let i = log@.base_version - rec.first_version;
        assert(s[i] == rec.snapshots@[i]@.dom());
    }
}

/// A replay is accepted where it ran as long as the log says and comes to the version that the log
/// says; then its change is applied and its state kept, and its number counts.
pub proof fn a_true_replay_is_applied(
    rec: &mut Recovery,
    log: &OwnedRec,
    base: &PathMap<Present>,
    parts: crate::worker::TxResultParts,
    r: Result<(), String>,
    p: Seq<u8>,
)
    requires
        call_ensures(Recovery::replayed, (rec, log, base, parts), r),
        crate::engine::recovery_inv(old(rec)@),
        old(rec).committed.version < u64::MAX,
    ensures
        r is Ok <==> !(parts.outcome is Failed) && parts.steps == log@.steps && log@.version
            == old(rec).committed.version + 1,
        r is Ok ==> {
            &&& final(rec).committed.version == log@.version
            &&& final(rec).snapshots@.len() == old(rec).snapshots@.len() + 1
            &&& parts.btm@.contains_key(p) && !base@.contains_key(p) ==> final(
                rec).committed.btm@.contains_key(p)
            &&& base@.contains_key(p) && !parts.btm@.contains_key(p) ==> !final(
                rec).committed.btm@.contains_key(p)
            &&& base@.contains_key(p) == parts.btm@.contains_key(p) ==> (final(
                rec).committed.btm@.contains_key(p) <==> old(rec).committed.btm@.contains_key(p))
            &&& crate::engine::id_number(log@.id) matches Some(n) ==> final(rec).max_tx >= n
            &&& final(rec).max_tx >= old(rec).max_tx
        },
{
    let run = crate::engine::parts_view(parts);
    crate::engine_laws::a_divergent_replay_is_refused(old(rec)@, log@, base@.dom(), run, p);
    let o = parts.outcome@;
    assert(old(rec)@.committed.version == old(rec).committed.version);
    assert(old(rec)@.committed.btm == old(rec).committed.btm@.dom());
    if r is Ok {
        assert(final(rec)@.committed.version == final(rec).committed.version);
        assert(final(rec)@.committed.btm == final(rec).committed.btm@.dom());
        assert(final(rec)@.snapshots.len() == final(rec).snapshots@.len());
        assert(old(rec)@.snapshots.len() == old(rec).snapshots@.len());
        assert(final(rec)@.max_tx == final(rec).max_tx);
        assert(run.btm.contains(p) <==> parts.btm@.contains_key(p));
    }
}

/// Every name of a segment is listed with its number, and no other name; the numbers ascend.
pub proof fn segments_are_listed_in_order(
    names: &Vec<String>,
    r: Vec<(u64, String)>,
    i: int,
    j: int,
)
    requires
        call_ensures(list_segments, (names,), r),
    ensures
        0 <= i < j < r@.len() ==> r@[i].0 <= r@[j].0,
        r@.len() == names@.map_values(|n: String| n@).filter(
            |n: Seq<char>| crate::wal::segments::segment_number(n) is Some,
        ).len(),
        0 <= i < r@.len() ==> crate::wal::segments::segment_number(r@[i].1@) == Some(r@[i].0),
{
    let ns = crate::wal::files::names_view(names@);
    assert(ns =~= names@.map_values(|n: String| n@));
    crate::wal::laws::each_segment_is_listed_once(ns);
    crate::wal::files::listing_is_ordered_and_complete(ns);
    let fs = crate::wal::files::files_view(r@);
    assert(fs.len() == r@.len());
    if 0 <= i < r@.len() {
        assert(fs[i] == (r@[i].0, r@[i].1@));
        assert(fs.contains(fs[i]));
    }
    if 0 <= j < r@.len() {
        assert(fs[j] == (r@[j].0, r@[j].1@));
    }
}

/// The newest segment is the last that is listed.
pub proof fn the_newest_segment_is_the_last(files: &Vec<(u64, String)>, r: Option<(u64, String)>)
    requires
        call_ensures(newest_segment, (files,), r),
    ensures
        r is Some <==> files@.len() > 0,
        r matches Some(f) ==> f.0 == files@.last().0 && f.1@ == files@.last().1@,
{
    let fs = crate::wal::files::files_view(files@);
    assert(fs.len() == files@.len());
    if files@.len() > 0 {
        assert(fs.last() == (files@.last().0, files@.last().1@));
    }
}

} // verus!
