//! What the log is for: records lie on disk as they are meant to, what is read is what is there,
//! damage is told from an unfinished end, and only what is superseded is removed.
use vstd::prelude::*;
use vstd::utf8::encode_utf8;

use crate::bytes::{
    le4_bytes, le4_roundtrip, le8_bytes, lemma_le4_of_value, lemma_le_len,
    lemma_le_range, starts_with,
};
use crate::json::JsonView;
use crate::python::json_laws::{says, width};
use crate::text::dec_text;
use crate::wal::files::{
    ascending, insert_file, meta_json, newest, segment_files, snapshot_prefix, superseded,
    CkptMetaView,
};
use crate::wal::install::{
    after_event, obsolete_files, wanted, InstallActionView, InstallEventView, InstallStage,
    InstallView,
};
use crate::wal::record::{crc32, decoded_is_payload, frame_bytes, payload, RecView};
use crate::wal::segments::{
    all_loggable, append_adds_record, damage_text, frame_at, frames, from_segment, has_magic,
    loggable, recovered, repair_of, scan, segment_number, segment_of, segment_scan, Repair,
};
use crate::wal::writer::{
    step_spec, writer_inv, ActionView, EventView, FsyncPolicy, ReplyView, StageView, WriterView,
};

verus! {

/// Numbers lie on disk with their least byte first.
pub proof fn numbers_are_little_endian(n: int)
    requires
        n >= 0,
    ensures
        le4_bytes(n).len() == 4,
        le4_bytes(n)[0] == n % 256,
        le4_bytes(n)[1] == n / 256 % 256,
        le4_bytes(n)[2] == n / 65536 % 256,
        le4_bytes(n)[3] == n / 16777216 % 256,
        le8_bytes(n).len() == 8,
        n < 0x1_0000_0000_0000_0000 ==> le8_bytes(n).subrange(0, 4) == le4_bytes(n % 0x1_0000_0000),
        n < 0x1_0000_0000_0000_0000 ==> le8_bytes(n).subrange(4, 8) == le4_bytes(n / 0x1_0000_0000),
{
    lemma_le_len(n);
    lemma_le_len(n % 0x1_0000_0000);
    lemma_le_len(n / 0x1_0000_0000);
    reveal(le4_bytes);
    assert(le8_bytes(n).subrange(0, 4) =~= le4_bytes(n % 0x1_0000_0000));
    assert(le8_bytes(n).subrange(4, 8) =~= le4_bytes(n / 0x1_0000_0000));
}

/// A record lies on disk as its kind, the length of its identifier, the identifier, the base
/// version, the steps, the version and the source, in this order.
pub proof fn a_record_has_its_layout(r: RecView)
    requires
        encode_utf8(r.id).len() <= 255,
    ensures
        ({
            let p = payload(r);
            let n = encode_utf8(r.id).len() as int;
            &&& p.len() == 26 + n + encode_utf8(r.source).len()
            &&& p[0] == 1
            &&& p[1] == n
            &&& p.subrange(2, 2 + n) == encode_utf8(r.id)
            &&& p.subrange(2 + n, 10 + n) == le8_bytes(r.base_version as int)
            &&& p.subrange(10 + n, 18 + n) == le8_bytes(r.steps as int)
            &&& p.subrange(18 + n, 26 + n) == le8_bytes(r.version as int)
            &&& p.skip(26 + n) == encode_utf8(r.source)
        }),
{
    lemma_le_len(r.base_version as int);
    lemma_le_len(r.steps as int);
    lemma_le_len(r.version as int);
    let p = payload(r);
    let n = encode_utf8(r.id).len() as int;
    assert(p.subrange(2, 2 + n) =~= encode_utf8(r.id));
    assert(p.subrange(2 + n, 10 + n) =~= le8_bytes(r.base_version as int));
    assert(p.subrange(10 + n, 18 + n) =~= le8_bytes(r.steps as int));
    assert(p.subrange(18 + n, 26 + n) =~= le8_bytes(r.version as int));
    assert(p.skip(26 + n) =~= encode_utf8(r.source));
}

/// A frame is the length of the record, its checksum and the record.
pub proof fn a_frame_has_its_layout(r: RecView)
    ensures
        ({
            let f = frame_bytes(r);
            &&& f.len() == payload(r).len() + 8
            &&& f.subrange(0, 4) == le4_bytes(payload(r).len() as int)
            &&& f.subrange(4, 8) == le4_bytes(crc32(payload(r)) as int)
            &&& f.skip(8) == payload(r)
        }),
{
    lemma_le_len(payload(r).len() as int);
    lemma_le_len(crc32(payload(r)) as int);
    let f = frame_bytes(r);
    assert(f.subrange(0, 4) =~= le4_bytes(payload(r).len() as int));
    assert(f.subrange(4, 8) =~= le4_bytes(crc32(payload(r)) as int));
    assert(f.skip(8) =~= payload(r));
}

/// A segment starts with `MORKWAL1`; every record of at most 256 MiB that is appended to a clean
/// segment is read back behind all that was there.
pub proof fn what_is_appended_is_read_back(s: Seq<u8>, r: RecView)
    requires
        s.len() >= 8,
        s.take(8) == seq![77u8, 79, 82, 75, 87, 65, 76, 49],
        segment_scan(s).1 is None,
        encode_utf8(r.id).len() <= 255,
        payload(r).len() <= 256 * 1024 * 1024,
    ensures
        segment_scan(s + frame_bytes(r)).0 == segment_scan(s).0.push(r),
        segment_scan(s + frame_bytes(r)).1 is None,
{
    append_adds_record(s, r);
}

proof fn lemma_frame_is_there(s: Seq<u8>, off: int)
    requires
        0 <= off,
        frame_at(s, off) is Some,
    ensures
        ({
            let (r, end) = frame_at(s, off)->0;
            &&& off < end <= s.len()
            &&& s.subrange(off, end) == frame_bytes(r)
            &&& loggable(r)
        }),
{
    let (r, end) = frame_at(s, off)->0;
    let a = s.subrange(off, off + 4);
    let c = s.subrange(off + 4, off + 8);
    let p = s.subrange(off + 8, end);
    lemma_le_range(a);
    lemma_le_range(c);
    decoded_is_payload(p);
    lemma_le4_of_value(a);
    lemma_le4_of_value(c);
    assert(payload(r) == p);
    assert(s.subrange(off, end) =~= a + c + p);
}

proof fn lemma_scan_is_there(s: Seq<u8>, off: int, before: Seq<RecView>)
    requires
        0 <= off <= s.len(),
    ensures
        ({
            let (found, bad) = scan(s, off);
            let end = match bad {
                Some(e) => e,
                None => s.len() as int,
            };
            &&& off <= end <= s.len()
            &&& frames(before + found) == frames(before) + s.subrange(off, end)
            &&& all_loggable(found)
            &&& bad matches Some(e) ==> frame_at(s, e) is None
        }),
    decreases s.len() - off,
{
    if off < s.len() {
        match frame_at(s, off) {
            None => {
                assert(before + Seq::<RecView>::empty() =~= before);
                assert(frames(before) + s.subrange(off, off) =~= frames(before));
            },
            Some((r, end)) => {
                lemma_frame_is_there(s, off);
                let with = before.push(r);
                lemma_scan_is_there(s, end, with);
                let (rest, bad) = scan(s, end);
                let stop = match bad {
                    Some(e) => e,
                    None => s.len() as int,
                };
                assert(with.drop_last() =~= before && with.last() == r);
                assert(frames(with) == frames(before) + frame_bytes(r));
                assert(before + (seq![r] + rest) =~= with + rest);
                assert(frames(before) + s.subrange(off, stop) =~= frames(with) + s.subrange(
                    end,
                    stop,
                ));
                let found = seq![r] + rest;
                assert forall|i: int| 0 <= i < found.len() implies loggable(#[trigger] found[i]) by {
                    if i > 0 {
                        assert(found[i] == rest[i - 1]);
                    }
                }
            },
        }
    } else {
        assert(before + Seq::<RecView>::empty() =~= before);
        assert(frames(before) + s.subrange(off, s.len() as int) =~= frames(before));
    }
}

/// What is read is what is there: the records of a segment, written out, are the segment up to the
/// place where reading stopped, which is its end, or a place where no whole record stands.
pub proof fn what_is_read_is_what_is_there(s: Seq<u8>)
    requires
        has_magic(s),
    ensures
        ({
            let (found, bad) = segment_scan(s);
            &&& all_loggable(found)
            &&& bad is None ==> s == segment_of(found)
            &&& bad matches Some(e) ==> 8 <= e <= s.len() && s.take(e) == segment_of(found)
                && frame_at(s, e) is None
        }),
{
    lemma_scan_is_there(s, 8, seq![]);
    let (found, bad) = segment_scan(s);
    assert(Seq::<RecView>::empty() + found =~= found);
    let end = match bad {
        Some(e) => e,
        None => s.len() as int,
    };
    assert(frames(found) =~= s.subrange(8, end));
    assert(segment_of(found) =~= s.take(end));
    assert(bad is None ==> s.take(end) =~= s);
}

/// A whole record stands at a place exactly where its length, its checksum and its form all fit.
pub proof fn a_record_stands_where_everything_fits(s: Seq<u8>, off: int, r: RecView)
    requires
        0 <= off,
    ensures
        frame_at(s, off) == Some((r, off + 8 + payload(r).len())) <==> loggable(r) && off
            + frame_bytes(r).len() <= s.len() && s.subrange(off, off + frame_bytes(r).len())
            == frame_bytes(r),
{
    a_frame_has_its_layout(r);
    if frame_at(s, off) == Some((r, off + 8 + payload(r).len())) {
        lemma_frame_is_there(s, off);
    }
    if loggable(r) && off + frame_bytes(r).len() <= s.len() && s.subrange(
        off,
        off + frame_bytes(r).len(),
    ) == frame_bytes(r) {
        let f = frame_bytes(r);
        let n = payload(r).len() as int;
        assert(s.subrange(off, off + 4) =~= f.subrange(0, 4));
        assert(s.subrange(off + 4, off + 8) =~= f.subrange(4, 8));
        assert(s.subrange(off + 8, off + 8 + n) =~= f.skip(8));
        le4_roundtrip(n);
        le4_roundtrip(crc32(payload(r)) as int);
        crate::wal::record::payload_roundtrip(r);
    }
}

/// The records of all segments, in order.
proof fn lemma_recovered(segs: Seq<(u64, Seq<u8>)>, i: int)
    requires
        0 <= i <= segs.len(),
    ensures
        (forall|k: int|
            i <= k < segs.len() - 1 ==> segment_scan((#[trigger] segs[k]).1).1 is None) ==> (
        recovered(segs, i) matches Ok((recs, _)) && recs == segs.skip(i).map_values(
            |s: (u64, Seq<u8>)| segment_scan(s.1).0,
        ).flatten()),
        (exists|k: int|
            i <= k < segs.len() - 1 && segment_scan((#[trigger] segs[k]).1).1 is Some)
            ==> recovered(segs, i) is Err,
        recovered(segs, i) matches Ok((_, repair)) ==> i < segs.len() ==> (repair is None
            <==> segment_scan(segs.last().1).1 is None),
        recovered(segs, i) matches Ok((_, Some(Repair::Truncate { seq, len }))) ==> i < segs.len()
            && seq == segs.last().0 && has_magic(segs.last().1) && (segs.last().1.len()
            <= usize::MAX ==> segment_scan(segs.last().1).1 == Some(len as int)),
        recovered(segs, i) matches Ok((_, Some(Repair::Reset { seq }))) ==> i < segs.len() && seq
            == segs.last().0 && !has_magic(segs.last().1),
    decreases segs.len() - i,
{
    let found = |s: (u64, Seq<u8>)| segment_scan(s.1).0;
    let all = segs.skip(i).map_values(found);
    if i < segs.len() {
        assert(all.first() == found(segs[i]));
        assert(all.drop_first() =~= segs.skip(i + 1).map_values(found));
        assert(segs.last() == segs[segs.len() - 1]);
        let later = segs.skip(i + 1).map_values(found);
        assert(all.flatten() == found(segs[i]) + later.flatten());
        if i == segs.len() - 1 {
            assert(later.flatten() =~= Seq::<RecView>::empty());
            assert(segs.skip(i + 1).map_values(found) =~= Seq::<Seq<RecView>>::empty());
            assert(segment_scan(segs[i].1).0 + Seq::<RecView>::empty() =~= segment_scan(
                segs[i].1,
            ).0);
            if let Some(e) = segment_scan(segs[i].1).1 {
                if has_magic(segs[i].1) {
                    lemma_scan_is_there(segs[i].1, 8, seq![]);
                }
            }
        } else {
            lemma_recovered(segs, i + 1);
            if forall|k: int|
                i <= k < segs.len() - 1 ==> segment_scan((#[trigger] segs[k]).1).1 is None {
                assert(segment_scan(segs[i].1).1 is None);
                assert(recovered(segs, i + 1)->Ok_0.0 == later.flatten());
            }
        }
    } else {
        assert(all =~= Seq::<Seq<RecView>>::empty());
        assert(all.flatten() =~= Seq::<RecView>::empty());
    }
}

/// Recovery reads every record of every segment, in order. Damage in a segment that is not the last
/// stops it; in the last one it is an unfinished end, which is cut off where whole records end, or,
/// where not even the header is whole, started anew.
pub proof fn only_the_end_of_the_log_may_be_unfinished(segs: Seq<(u64, Seq<u8>)>)
    ensures
        (forall|k: int|
            0 <= k < segs.len() - 1 ==> segment_scan((#[trigger] segs[k]).1).1 is None) ==> (
        recovered(segs, 0) matches Ok((recs, _)) && recs == segs.map_values(
            |s: (u64, Seq<u8>)| segment_scan(s.1).0,
        ).flatten()),
        (exists|k: int|
            0 <= k < segs.len() - 1 && segment_scan((#[trigger] segs[k]).1).1 is Some)
            ==> recovered(segs, 0) is Err,
        recovered(segs, 0) matches Ok((_, repair)) ==> segs.len() > 0 ==> (repair is None
            <==> segment_scan(segs.last().1).1 is None),
        recovered(segs, 0) matches Ok((_, Some(Repair::Truncate { seq, len }))) ==> seq
            == segs.last().0 && has_magic(segs.last().1) && (segs.last().1.len() <= usize::MAX
            ==> segment_scan(segs.last().1).1 == Some(len as int)),
        recovered(segs, 0) matches Ok((_, Some(Repair::Reset { seq }))) ==> seq == segs.last().0
            && !has_magic(segs.last().1),
{
    lemma_recovered(segs, 0);
    assert(segs.skip(0) =~= segs);
}

/// Segments from before a checkpoint are not read; all others are, in their order.
pub proof fn segments_are_read_from_the_checkpoint_on(segs: Seq<(u64, Seq<u8>)>, first: u64)
    ensures
        from_segment(segs, first) == segs.filter(|s: (u64, Seq<u8>)| s.0 >= first),
{
}

/// The name of a segment is `wal-`, a number and `.log`; nothing else has a segment's number.
pub proof fn only_segments_have_a_number(name: Seq<char>)
    ensures
        segment_number(name) is Some ==> ({
            let b = encode_utf8(name);
            &&& b.len() > 8
            &&& b.take(4) == seq![119u8, 97, 108, 45]
            &&& b.skip(b.len() - 4) == seq![46u8, 108, 111, 103]
        }),
{
}

/// The files that an installed checkpoint makes superfluous are, in order, the segments from before
/// it and the other snapshots; no file with another name is touched.
pub proof fn only_what_is_superseded_is_removed(
    names: Seq<Seq<char>>,
    installed: Seq<char>,
    first_segment: u64,
    name: Seq<char>,
)
    ensures
        obsolete_files(names, installed, first_segment) == names.filter(
            |n: Seq<char>| superseded(n, installed, first_segment),
        ),
        superseded(name, installed, first_segment) ==> (segment_number(name) matches Some(n) && n
            < first_segment) || (encode_utf8("checkpoint-"@).is_prefix_of(encode_utf8(name)) && name
            != installed),
        (segment_number(name) matches Some(n) && n < first_segment) ==> superseded(
            name,
            installed,
            first_segment,
        ),
{
    lemma_obsolete(names, installed, first_segment);
    lemma_snapshot_prefix();
    let b = encode_utf8(name);
    let p = snapshot_prefix();
    if starts_with(b, p) {
        assert(b.take(p.len() as int) =~= b.subrange(0, p.len() as int));
    }
}

proof fn lemma_snapshot_prefix()
    ensures
        encode_utf8("checkpoint-"@) == snapshot_prefix(),
{
    reveal_strlit("checkpoint-");
    let t = "checkpoint-"@;
    assert(vstd::utf8::is_ascii_chars(t));
    crate::text::lemma_ascii_bytes(t);
    assert(crate::text::ascii_bytes(t) =~= snapshot_prefix());
}

proof fn lemma_obsolete(names: Seq<Seq<char>>, installed: Seq<char>, first_segment: u64)
    ensures
        obsolete_files(names, installed, first_segment) == names.filter(
            |n: Seq<char>| superseded(n, installed, first_segment),
        ),
    decreases names.len(),
{
    reveal(Seq::filter);
    if names.len() > 0 {
        lemma_obsolete(names.drop_last(), installed, first_segment);
    }
}

/// Listing the segments keeps each file that is one, as often as it is there, and sorts them.
pub proof fn each_segment_is_listed_once(names: Seq<Seq<char>>)
    ensures
        segment_files(names).len() == names.filter(
            |n: Seq<char>| segment_number(n) is Some,
        ).len(),
        ascending(segment_files(names)),
    decreases names.len(),
{
    crate::wal::files::listing_is_ordered_and_complete(names);
    reveal(Seq::filter);
    if names.len() > 0 {
        each_segment_is_listed_once(names.drop_last());
        if let Some(n) = segment_number(names.last()) {
            lemma_insert_len(segment_files(names.drop_last()), (n, names.last()));
        }
    }
}

proof fn lemma_insert_len(files: Seq<(u64, Seq<char>)>, f: (u64, Seq<char>))
    ensures
        insert_file(files, f).len() == files.len() + 1,
    decreases files.len(),
{
    if files.len() > 0 && files.last().0 > f.0 {
        lemma_insert_len(files.drop_last(), f);
    }
}

/// The log goes on in the segment of the largest number.
pub proof fn the_newest_segment_is_the_largest(names: Seq<Seq<char>>, i: int)
    ensures
        newest(segment_files(names)) matches Some(f) ==> segment_files(names).contains(f) && (0 <= i
            < segment_files(names).len() ==> segment_files(names)[i].0 <= f.0),
        newest(segment_files(names)) is None <==> segment_files(names).len() == 0,
{
    crate::wal::files::listing_is_ordered_and_complete(names);
    let files = segment_files(names);
    if files.len() > 0 {
        assert(files.last() == files[files.len() - 1]);
        if 0 <= i < files.len() - 1 {
            assert(files[i].0 <= files[files.len() - 1].0);
        }
    }
}

/// A checkpoint's description names each of its parts.
pub proof fn a_description_names_its_parts(m: CkptMetaView)
    ensures
        width(meta_json(m)) == 5,
        says(meta_json(m), "snapshot"@, JsonView::Str(m.snapshot)),
        says(meta_json(m), "format"@, JsonView::Str(m.format)),
        says(meta_json(m), "version"@, JsonView::Int(m.version as int)),
        says(meta_json(m), "tx_counter"@, JsonView::Int(m.tx_counter as int)),
        says(meta_json(m), "first_segment"@, JsonView::Int(m.first_segment as int)),
{
    let ms = meta_json(m)->Object_0;
    assert(ms.contains(ms[0]) && ms.contains(ms[1]) && ms.contains(ms[2]) && ms.contains(ms[3])
        && ms.contains(ms[4]));
}

/// A checkpoint is installed in this order: the snapshot is written under another name, renamed and
/// made durable; only then its description is written, put in place and made durable; only then
/// other files are looked for, and what is superseded is removed, one file after the other.
pub proof fn a_checkpoint_is_installed_in_order(i: InstallView, names: Seq<Seq<char>>, k: int)
    requires
        i.stage == InstallStage::Writing,
    ensures
        ({
            let done = InstallEventView::Done;
            let a = after_event(i, done);
            let b = after_event(a.0, done);
            let c = after_event(b.0, done);
            let d = after_event(c.0, done);
            let e = after_event(d.0, done);
            let f = after_event(e.0, done);
            let g = after_event(f.0, InstallEventView::Listed(names));
            let doomed = names.filter(|n: Seq<char>| superseded(n, i.name(), i.first_segment));
            &&& wanted(i) == InstallActionView::WriteSnapshot(i.name() + ".tmp"@)
            &&& a.1 == InstallActionView::Rename(i.name() + ".tmp"@, i.name())
            &&& b.1 == InstallActionView::SyncDir
            &&& c.1 matches InstallActionView::WriteMeta(m) && m.snapshot == i.name() && m.format
                == i.format && m.version == i.version && m.tx_counter == i.tx_counter
                && m.first_segment == i.first_segment
            &&& d.1 == InstallActionView::SwapMeta
            &&& e.1 == InstallActionView::SyncDir
            &&& f.1 == InstallActionView::List
            &&& g.0.doomed == doomed
            &&& doomed.len() == 0 ==> g.1 == InstallActionView::Finished(i.name())
            &&& doomed.len() > 0 ==> g.1 == InstallActionView::Remove(doomed[0])
            &&& 0 <= k < doomed.len() ==> {
                let at = InstallView { at: k, ..g.0 };
                &&& wanted(at) == InstallActionView::Remove(doomed[k])
                &&& k + 1 < doomed.len() ==> after_event(at, done).1 == InstallActionView::Remove(
                    doomed[k + 1],
                )
                &&& k + 1 == doomed.len() ==> after_event(at, done).1
                    == InstallActionView::Finished(i.name())
            }
        }),
{
    lemma_obsolete(names, i.name(), i.first_segment);
}

/// A step that fails before files are removed gives the checkpoint up, with the failure's text.
pub proof fn a_failed_step_gives_the_checkpoint_up(i: InstallView, text: Seq<char>)
    requires
        i.stage != InstallStage::Removing,
    ensures
        after_event(i, InstallEventView::Failed(text)).1 == InstallActionView::GaveUp(text),
        after_event(i, InstallEventView::Failed(text)).0.stage == InstallStage::Ended,
{
}

/// When the queue is empty the batch is written; when nothing is left to write, the log is synced
/// as its policy says: at once, when it is due, or not at all.
pub proof fn the_log_is_synced_by_its_policy(w: WriterView, due: bool)
    requires
        writer_inv(w),
        w.stage == StageView::Draining,
    ensures
        ({
            let (n, o) = step_spec(w, EventView::Empty, due);
            &&& w.batch.len() > 0 ==> o.next == ActionView::Write(w.batch) && o.replies.len() == 0
            &&& w.batch.len() == 0 && w.dirty && w.policy == FsyncPolicy::Always ==> o.next
                == ActionView::Sync && o.replies.len() == 0
            &&& w.batch.len() == 0 && w.dirty && w.policy == FsyncPolicy::Everysec && due ==> o.next
                == ActionView::Sync
            &&& w.batch.len() == 0 && w.dirty && w.policy == FsyncPolicy::Everysec && !due
                ==> o.next == (ActionView::Wait { deadline: true })
            &&& w.batch.len() == 0 && (!w.dirty || w.policy == FsyncPolicy::No) ==> o.next == (
            ActionView::Wait { deadline: false })
            &&& w.batch.len() == 0 && w.policy != FsyncPolicy::Always ==> o.replies.len()
                == w.acks.len()
        }),
{
}

/// What was written is dirty until it is synced, and what is synced is not; when the queue closes,
/// what is dirty is synced before the writer stops.
pub proof fn nothing_is_left_unsynced_at_the_end(w: WriterView, due: bool)
    requires
        writer_inv(w),
    ensures
        w.stage == StageView::FlushWrite && w.policy == FsyncPolicy::Always ==> step_spec(
            w,
            EventView::Done,
            due,
        ).1.next == ActionView::Sync && step_spec(w, EventView::Done, due).0.dirty && step_spec(
            w,
            EventView::Done,
            due,
        ).1.replies.len() == 0,
        w.stage == StageView::FlushWrite ==> step_spec(w, EventView::Done, due).0.dirty,
        w.stage == StageView::FlushSync ==> !step_spec(w, EventView::Done, due).0.dirty && step_spec(
            w,
            EventView::Done,
            due,
        ).1.replies.len() == w.acks.len(),
        w.stage == StageView::Parked && w.dirty ==> step_spec(w, EventView::Closed, due).1.next
            == ActionView::Sync,
        w.stage == StageView::Parked && !w.dirty ==> step_spec(w, EventView::Closed, due).1.next
            == ActionView::Stop,
        w.stage == StageView::LastSync ==> step_spec(w, EventView::Done, due).1.next
            == ActionView::Stop,
{
}

/// A checkpoint starts a new segment: what is queued before it is written and synced first, and
/// the request is handed on with the new segment's number.
pub proof fn a_checkpoint_starts_a_new_segment(
    w: WriterView,
    req: crate::wal::writer::RequestView,
    due: bool,
)
    requires
        writer_inv(w),
        w.seq < u64::MAX,
        !w.poisoned,
    ensures
        w.stage == StageView::Draining || w.stage == StageView::Parked ==> ({
            let o = step_spec(w, EventView::Checkpoint(req), due).1;
            &&& w.batch.len() > 0 ==> o.next == ActionView::Write(w.batch)
            &&& w.batch.len() == 0 && w.dirty ==> o.next == ActionView::Sync
            &&& w.batch.len() == 0 && !w.dirty ==> o.next == ActionView::CreateSegment(
                (w.seq + 1) as u64,
            )
        }),
        w.stage == StageView::RotateWrite(req) ==> step_spec(w, EventView::Done, due).1.next
            == ActionView::Sync,
        w.stage == StageView::RotateSync(req) ==> step_spec(w, EventView::Done, due).1.next
            == ActionView::CreateSegment((w.seq + 1) as u64),
        w.stage == StageView::RotateCreate(req) ==> step_spec(w, EventView::Done, due).1.job == Some(
            (req, (w.seq + 1) as u64),
        ),
{
}

/// What is recorded is acknowledged: after a sync everyone who waits is told so, and without one
/// where the policy asks for none. After a failure everyone who waits is told that, and why, and
/// from then on nothing is taken in.
pub proof fn what_is_recorded_is_acknowledged(w: WriterView, e: Seq<char>, due: bool)
    requires
        writer_inv(w),
        !w.poisoned,
    ensures
        w.stage == StageView::FlushSync ==> step_spec(w, EventView::Done, due).1.replies
            == w.acks.map_values(|a: u64| ReplyView { ack: a, error: None }),
        w.stage == StageView::FlushWrite && w.policy != FsyncPolicy::Always ==> step_spec(
            w,
            EventView::Done,
            due,
        ).1.replies == w.acks.map_values(|a: u64| ReplyView { ack: a, error: None }),
        w.stage == StageView::FlushSync || w.stage == StageView::FlushWrite || w.stage
            is RotateWrite || w.stage is RotateSync ==> step_spec(w, EventView::Failed(e), due).0.poisoned
            && step_spec(w, EventView::Failed(e), due).1.replies.len() == w.acks.len() && forall|
            i: int,
        |
            0 <= i < w.acks.len() ==> {
                let r = #[trigger] step_spec(w, EventView::Failed(e), due).1.replies[i];
                &&& r.ack == w.acks[i]
                &&& r.error matches Some(t) && "unavailable: "@.is_prefix_of(t) && (": "@
                    + e).is_suffix_of(t)
            },
{
    let t = crate::wal::writer::not_durable(e);
    reveal_strlit("unavailable: ");
    reveal_strlit(
        "unavailable: the write-ahead log could not durably record this transaction; it may be visible to readers until the server is restarted, but it is not durable — treat it as lost and retry once the disk is healthy",
    );
    assert(t.subrange(0, 13) =~= "unavailable: "@);
    let tail = ": "@ + e;
    assert(t.subrange(t.len() - tail.len(), t.len() as int) =~= tail);
}

/// What comes in waits behind what came in before, with those who wait for it; a log that has
/// failed takes nothing in and says so.
pub proof fn what_comes_in_waits_its_turn(w: WriterView, frame: Seq<u8>, ack: Option<u64>, due: bool)
    requires
        writer_inv(w),
        w.stage == StageView::Parked || w.stage == StageView::Draining,
    ensures
        ({
            let (n, o) = step_spec(w, EventView::Append { frame, ack }, due);
            &&& o.next == ActionView::Poll
            &&& !w.poisoned ==> n.batch == w.batch + frame && o.replies.len() == 0
            &&& !w.poisoned && ack is None ==> n.acks == w.acks
            &&& !w.poisoned && ack is Some ==> n.acks == w.acks.push(ack->0)
            &&& w.poisoned ==> n.batch == w.batch && n.acks == w.acks
            &&& w.poisoned && ack is Some ==> o.replies.len() == 1 && o.replies[0].ack == ack->0
                && o.replies[0].error is Some
        }),
{
}

/// A segment that does not start as one is made anew; one that does is cut where its first bad
/// record starts; one that is whole is left alone.
pub proof fn an_unfinished_end_is_cut_off(seq: u64, bytes: Seq<u8>)
    ensures
        segment_scan(bytes).1 is None ==> repair_of(seq, bytes) is None,
        segment_scan(bytes).1 matches Some(off) ==> repair_of(seq, bytes) == Some(
            if encode_utf8("MORKWAL1"@).is_prefix_of(bytes) {
                Repair::Truncate { seq, len: off as usize }
            } else {
                Repair::Reset { seq }
            },
        ),
        segment_scan(bytes).1 matches Some(off) ==> damage_text(seq, bytes) == if encode_utf8(
            "MORKWAL1"@,
        ).is_prefix_of(bytes) {
            "segment "@ + dec_text(seq as nat) + ": corrupt record at byte "@ + dec_text(off as nat)
        } else {
            "segment "@ + dec_text(seq as nat) + ": bad magic"@
        },
{
    reveal_strlit("MORKWAL1");
    crate::text::lemma_ascii_bytes("MORKWAL1"@);
    assert(crate::text::ascii_bytes("MORKWAL1"@) =~= crate::wal::segments::magic());
    if bytes.len() >= 8 {
        assert(bytes.take(8) =~= bytes.subrange(0, 8));
    }
    assert(has_magic(bytes) == encode_utf8("MORKWAL1"@).is_prefix_of(bytes));
}

/// A record of another kind is told by its tag; one whose parts do not fit is told to be malformed.
pub proof fn an_unknown_record_is_told(p: Seq<u8>)
    ensures
        p.len() < 2 || p.len() < 2 + p[1] ==> crate::wal::record::decoded(p) == Err::<
            RecView,
            Seq<char>,
        >("malformed record payload"@),
        p.len() >= 2 && p.len() >= 2 + p[1] && vstd::utf8::valid_utf8(p.subrange(2, 2 + p[1]))
            && p[0] != 1 ==> crate::wal::record::decoded(p) == Err::<RecView, Seq<char>>(
            "unknown record tag "@ + dec_text(p[0] as nat) + " (written by a newer server?)"@,
        ),
        p.len() >= 2 && 2 + p[1] <= p.len() < 2 + p[1] + 24 && p[0] == 1
            ==> crate::wal::record::decoded(p) == Err::<RecView, Seq<char>>(
            "malformed record payload"@,
        ),
{
}

} // verus!
