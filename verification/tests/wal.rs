use mork_server::json::Json;
use mork_server::wal::files::{
    is_leftover, is_superseded, list_segments, newest_segment, snapshot_name, CkptMeta,
};
use mork_server::wal::install::{Install, InstallAction, InstallEvent};
use mork_server::wal::record::{decode_payload, frame, has_checksum, OwnedRec, Rec};
use mork_server::wal::segments::{magic_bytes, parse_seg_name, read_segments, seg_path, Repair};
use mork_server::wal::writer::{
    Action, Appended, CkptJob, CkptRequest, Event, FsyncPolicy, Reply, Wal, Writer, NOT_DURABLE,
};

fn commit<'a>(id: &'a str, base_version: u64, source: &'a str, steps: u64, version: u64) -> Rec<'a> {
    Rec::Commit { id, base_version, source, steps, version }
}

fn owned(id: &str, base_version: u64, source: &str, steps: u64, version: u64) -> OwnedRec {
    OwnedRec::Commit { id: id.into(), base_version, source: source.into(), steps, version }
}

fn segment(recs: &[Rec]) -> Vec<u8> {
    let mut bytes = magic_bytes();
    for r in recs {
        bytes.extend_from_slice(&frame(r));
    }
    bytes
}

#[test]
fn roundtrip_commit_tag() {
    let recs = [
        Rec::Commit {
            id: "tx1_abcd1234",
            base_version: 0,
            source: "(a b)\n(exec (tx1_abcd1234 0) $x $y)\n",
            steps: 42,
            version: 1234567890123,
        },
        Rec::Commit {
            id: "tx2_efgh5678",
            base_version: 1234567890123,
            source: "(unicode ⍼ \"quoted \\\" str\")",
            steps: 0,
            version: 1234567890124,
        },
    ];
    for r in &recs {
        let f = frame(r);
        let len = u32::from_le_bytes(f[..4].try_into().unwrap()) as usize;
        assert_eq!(len + 8, f.len());
        let dec = decode_payload(&f[8..]).unwrap();
        let Rec::Commit { id, base_version, source, steps, version } = r;
        let OwnedRec::Commit { id: i2, base_version: bv2, source: s2, steps: st2, version: v2 } = &dec;
        assert_eq!(
            (*id, *base_version, *source, *steps, *version),
            (i2.as_str(), *bv2, s2.as_str(), *st2, *v2)
        );
    }
}

#[test]
fn torn_tail_truncates_and_keeps_prior_records() {
    let full = segment(&[
        commit("tx1_aaaaaaaa", 0, "(a)", 1, 1),
        commit("tx1_aaaaaaaa", 1, "(a2)", 1, 2),
        commit("tx2_bbbbbbbb", 2, "(b)", 1, 3),
    ]);
    // tear the last record: chop 3 bytes off
    let mut torn = full.clone();
    torn.truncate(full.len() - 3);
    let (recs, repair) = read_segments(&vec![(0, torn.clone())], 0).unwrap();
    assert_eq!(recs.len(), 2);
    assert!(matches!(&recs[1], OwnedRec::Commit { steps: 1, version: 2, .. }));
    // cut at the last good record: a second scan is clean and stable
    let Some(Repair::Truncate { seq: 0, len }) = repair else { panic!("a torn tail is cut") };
    assert!(len < full.len() - 3);
    torn.truncate(len);
    let (again, repair) = read_segments(&vec![(0, torn)], 0).unwrap();
    assert_eq!(again, recs);
    assert_eq!(repair, None);
}

#[test]
fn crc_flip_in_last_segment_truncates_there() {
    let mut buf =
        segment(&[commit("tx1_aaaaaaaa", 0, "(a)", 0, 1), commit("tx2_bbbbbbbb", 1, "(b)", 0, 2)]);
    let last = buf.len() - 1; // inside the second record's payload
    buf[last] ^= 0xff;
    let (recs, repair) = read_segments(&vec![(0, buf)], 0).unwrap();
    assert_eq!(recs, vec![owned("tx1_aaaaaaaa", 0, "(a)", 0, 1)]);
    assert!(matches!(repair, Some(Repair::Truncate { seq: 0, .. })));
}

#[test]
fn corruption_in_non_last_segment_is_a_hard_error() {
    let mut first = segment(&[commit("tx1_aaaaaaaa", 0, "(a)", 0, 1)]);
    let second = segment(&[commit("tx2_bbbbbbbb", 1, "(b)", 0, 2)]);
    let last = first.len() - 1;
    first[last] ^= 0xff;
    let log = vec![(0, first), (1, second)];
    assert!(read_segments(&log, 0).is_err());
    // starting AFTER the damaged segment still works
    assert_eq!(read_segments(&log, 1).unwrap().0.len(), 1);
}

#[test]
fn reads_across_segments_in_order() {
    let log = vec![
        (0, segment(&[commit("tx1_aaaaaaaa", 0, "(a)", 0, 1)])),
        (1, segment(&[commit("tx2_bbbbbbbb", 1, "(b)", 3, 4)])),
    ];
    let (recs, _) = read_segments(&log, 0).unwrap();
    assert_eq!(recs.len(), 2);
    let OwnedRec::Commit { id: id0, version: v0, .. } = &recs[0];
    let OwnedRec::Commit { id: id1, version: v1, .. } = &recs[1];
    assert_eq!((id0.as_str(), *v0), ("tx1_aaaaaaaa", 1));
    assert_eq!((id1.as_str(), *v1), ("tx2_bbbbbbbb", 4));
}

/// Appends frames as a writer does, and returns the segment.
fn written(policy: FsyncPolicy, recs: &[Rec]) -> Vec<u8> {
    let wal = Wal::open(policy);
    let (mut w, _) = Writer::start(policy, 0);
    let mut disk = magic_bytes();
    for r in recs {
        let Appended::Queued(f) = wal.append(r) else { panic!("a healthy log takes records") };
        let mut action = w.step(Event::Append { frame: f, ack: None }, false).next;
        loop {
            let event = match action {
                Action::Poll => Event::Empty,
                Action::Write(bytes) => {
                    disk.extend_from_slice(&bytes);
                    Event::Done
                }
                Action::Sync => Event::Done,
                _ => break,
            };
            action = w.step(event, false).next;
        }
    }
    disk
}

#[test]
fn commit_record_roundtrips_with_base_version() {
    let disk = written(FsyncPolicy::Always, &[commit("tx7_abcdefgh", 41, "(edge a b)\n", 3, 42)]);
    let (recs, _) = read_segments(&vec![(0, disk)], 0).unwrap();
    assert_eq!(recs, vec![owned("tx7_abcdefgh", 41, "(edge a b)\n", 3, 42)]);
}

#[test]
fn interleaved_commits_are_read_back_in_log_order() {
    let disk = written(
        FsyncPolicy::Always,
        &[commit("txA", 0, "(a)\n", 0, 1), commit("txB", 0, "(b)\n", 0, 2)],
    );
    let (recs, _) = read_segments(&vec![(0, disk)], 0).unwrap();
    assert_eq!(recs.len(), 2);
    let OwnedRec::Commit { id: a, version: va, .. } = &recs[0];
    let OwnedRec::Commit { id: b, version: vb, .. } = &recs[1];
    assert_eq!((a.as_str(), *va), ("txA", 1));
    assert_eq!((b.as_str(), *vb), ("txB", 2));
}

#[test]
fn meta_roundtrip_and_missing() {
    let meta = CkptMeta {
        snapshot: "checkpoint-000123.paths".into(),
        format: "paths".into(),
        version: 123,
        tx_counter: 45,
        first_segment: 7,
    };
    assert_eq!(CkptMeta::load_file(None).unwrap(), None);
    let text = meta.store_text();
    assert_eq!(
        text,
        "{\"first_segment\":7,\"format\":\"paths\",\"snapshot\":\"checkpoint-000123.paths\",\
         \"tx_counter\":45,\"version\":123}"
    );
    assert_eq!(CkptMeta::load_file(Some(text.as_bytes())).unwrap().as_ref(), Some(&meta));
    // garbage meta is a hard error, not a silent None
    let e = CkptMeta::load_file(Some(b"{not json")).unwrap_err();
    assert!(e.message.starts_with("checkpoint.meta: key must be a string"), "{}", e.message);
    let e = CkptMeta::load_bytes(b"{\"snapshot\":\"s\"}").unwrap_err();
    assert_eq!(e.message, "checkpoint.meta: missing 'format'");
    assert_eq!(CkptMeta::load(&meta.store()).unwrap(), meta);
    let e = CkptMeta::load(&Json::Object(vec![])).unwrap_err();
    assert_eq!(e.message, "checkpoint.meta: missing 'snapshot'");
    assert!(CkptMeta::load(&Json::Null).is_err());
}

#[test]
fn wal_appends_are_durable_and_ack_fires_after_fsync_under_always() {
    let wal = Wal::open(FsyncPolicy::Always);
    assert!(wal.acks_mean_durable());
    let (mut w, first) = Writer::start(FsyncPolicy::Always, 0);
    assert_eq!(first, Action::Wait { deadline: false });
    let Appended::Queued(f) = wal.append(&commit("tx1_aaaaaaaa", 0, "(a b)", 1, 1)) else {
        panic!("a healthy log takes records")
    };
    let o = w.step(Event::Append { frame: f.clone(), ack: Some(9) }, false);
    assert_eq!((o.replies.len(), o.next), (0, Action::Poll));
    let o = w.step(Event::Empty, false);
    assert_eq!((o.replies.len(), &o.next), (0, &Action::Write(f)));
    let mut disk = magic_bytes();
    let Action::Write(bytes) = o.next else { unreachable!() };
    disk.extend_from_slice(&bytes);
    // written, but not yet on disk: no answer
    let o = w.step(Event::Done, false);
    assert_eq!((o.replies.len(), o.next), (0, Action::Sync));
    let o = w.step(Event::Done, false);
    assert_eq!(o.replies, vec![Reply { ack: 9, error: None }]);
    // a second record, without an acknowledgement, and then the end
    let Appended::Queued(f) = wal.append(&commit("tx2_bbbbbbbb", 1, "(b)", 1, 2)) else {
        panic!("a healthy log takes records")
    };
    w.step(Event::Append { frame: f, ack: None }, false);
    let Action::Write(bytes) = w.step(Event::Empty, false).next else { panic!("a batch is written") };
    disk.extend_from_slice(&bytes);
    assert_eq!(w.step(Event::Done, false).next, Action::Sync);
    w.step(Event::Done, false);
    let (recs, _) = read_segments(&vec![(0, disk)], 0).unwrap();
    assert_eq!(recs.len(), 2);
    assert_eq!(recs[0], owned("tx1_aaaaaaaa", 0, "(a b)", 1, 1));
}

#[test]
fn everysec_answers_after_the_write() {
    let (mut w, _) = Writer::start(FsyncPolicy::Everysec, 0);
    w.step(Event::Append { frame: vec![1], ack: Some(1) }, false);
    w.step(Event::Empty, false);
    let o = w.step(Event::Done, false);
    assert_eq!(o.replies, vec![Reply { ack: 1, error: None }]);
    assert_eq!(o.next, Action::Wait { deadline: true });
}

#[test]
fn a_failed_write_poisons_and_answers_with_the_error() {
    let (mut w, _) = Writer::start(FsyncPolicy::Always, 0);
    w.step(Event::Append { frame: vec![1], ack: Some(4) }, false);
    w.step(Event::Empty, false);
    let o = w.step(Event::Failed("disk full".into()), false);
    assert!(w.poisoned);
    assert_eq!(o.replies.len(), 1);
    assert_eq!(o.replies[0].ack, 4);
    assert!(o.replies[0].error.as_ref().unwrap().starts_with(NOT_DURABLE));
    assert!(o.replies[0].error.as_ref().unwrap().contains("disk full"));
}

#[test]
fn checkpoint_rotates_installs_and_gcs() {
    let mut wal = Wal::open(FsyncPolicy::No);
    let (mut w, _) = Writer::start(FsyncPolicy::No, 0);
    w.step(Event::Append { frame: vec![1, 2], ack: None }, false);
    assert!(wal.checkpoint(true));
    assert!(!wal.checkpoint(true), "one at a time");
    let request = CkptRequest { version: 1, tx_counter: 1, format: "paths".into() };
    let mut o = w.step(Event::Checkpoint(request), false);
    assert_eq!(o.next, Action::Write(vec![1, 2]));
    o = w.step(Event::Done, false);
    assert_eq!(o.next, Action::Sync);
    o = w.step(Event::Done, false);
    assert_eq!(o.next, Action::CreateSegment(1));
    o = w.step(Event::Done, false);
    let job = o.job.unwrap();
    assert_eq!((job.first_segment, job.tx_counter, job.version), (1, 1, 1));
    wal.checkpoint_done();
    assert!(wal.checkpoint(true));
    // what the installed checkpoint makes obsolete
    let installed = snapshot_name(1, "paths");
    assert_eq!(installed, "checkpoint-000001.paths");
    assert!(is_superseded(&seg_path(0), &installed, 1));
    assert!(!is_superseded(&seg_path(1), &installed, 1));
    assert!(!is_superseded(&installed, &installed, 1));
    assert!(is_superseded("checkpoint-000099.paths", &installed, 1));
    // what is swept when the log is opened
    let kept = Some(installed.clone());
    assert!(is_leftover(b"checkpoint-000099.paths", &kept));
    assert!(!is_leftover(installed.as_bytes(), &kept));
    assert!(is_leftover(b"checkpoint.meta.tmp", &kept));
    assert!(!is_leftover(b"checkpoint.meta", &kept));
}

#[test]
fn segments_are_listed_in_order_and_the_newest_is_appended_to() {
    let names: Vec<String> =
        ["wal-000010.log", "checkpoint.meta", "wal-000002.log", "wal-x.log"].map(String::from).to_vec();
    let files = list_segments(&names);
    assert_eq!(files, vec![(2, "wal-000002.log".to_string()), (10, "wal-000010.log".to_string())]);
    assert_eq!(newest_segment(&files), Some((10, "wal-000010.log".to_string())));
    assert_eq!(seg_path(2), "wal-000002.log");
    assert_eq!(parse_seg_name("wal-000010.log"), Some(10));
    assert_eq!(parse_seg_name("wal-.log"), None);
}

#[test]
fn the_checksum_is_that_of_the_payload() {
    let f = frame(&commit("tx1_aaaaaaaa", 0, "(a)", 0, 1));
    let crc = u32::from_le_bytes(f[4..8].try_into().unwrap());
    assert_eq!(crc, crc32fast::hash(&f[8..]));
    assert!(has_checksum(&f[8..], crc));
    assert!(!has_checksum(&f[9..], crc));
}

#[test]
fn a_segment_that_never_got_its_header_is_reset() {
    let log = vec![(0, magic_bytes()[..3].to_vec())];
    let (recs, repair) = read_segments(&log, 0).unwrap();
    assert_eq!(recs.len(), 0);
    assert_eq!(repair, Some(Repair::Reset { seq: 0 }));
}

#[test]
fn unknown_payloads_are_refused() {
    assert!(decode_payload(&[]).is_err());
    assert!(decode_payload(&[0xFF, 1, 2]).is_err());
}

#[test]
fn a_poisoned_log_refuses_records() {
    let wal = Wal { policy: FsyncPolicy::Always, poisoned: true, ckpt_busy: false };
    assert!(wal.poisoned());
    assert!(matches!(wal.append(&commit("tx1_aaaaaaaa", 0, "(a)", 0, 1)), Appended::Refused(_)));
}

fn job() -> CkptJob {
    CkptJob { version: 7, tx_counter: 3, format: "paths".into(), first_segment: 2 }
}

#[test]
fn install_replaces_the_meta_before_it_removes_anything() {
    let (mut install, first) = Install::start(job());
    assert!(matches!(&first, InstallAction::WriteSnapshot(n) if n == "checkpoint-000007.paths.tmp"));
    let renamed = install.step(InstallEvent::Done);
    assert!(matches!(&renamed, InstallAction::Rename { from, to }
        if from == "checkpoint-000007.paths.tmp" && to == "checkpoint-000007.paths"));
    assert!(matches!(install.step(InstallEvent::Done), InstallAction::SyncDir));
    let InstallAction::WriteMeta(meta) = install.step(InstallEvent::Done) else {
        panic!("the meta is written once the snapshot is durable");
    };
    let meta = CkptMeta::load_bytes(meta.as_bytes()).unwrap();
    assert_eq!(meta.snapshot, "checkpoint-000007.paths");
    assert_eq!((meta.version, meta.tx_counter, meta.first_segment), (7, 3, 2));
    assert!(matches!(install.step(InstallEvent::Done), InstallAction::SwapMeta));
    assert!(matches!(install.step(InstallEvent::Done), InstallAction::SyncDir));
    assert!(matches!(install.step(InstallEvent::Done), InstallAction::List));
    let names = ["wal-000001.log", "wal-000002.log", "checkpoint-000004.paths", "checkpoint-000007.paths"];
    let mut next = install.step(InstallEvent::Listed(names.map(String::from).to_vec()));
    let mut removed = Vec::new();
    while let InstallAction::Remove(name) = &next {
        removed.push(name.clone());
        next = install.step(InstallEvent::Done);
    }
    assert_eq!(removed, ["wal-000001.log", "checkpoint-000004.paths"]);
    assert!(matches!(&next, InstallAction::Finished(n) if n == "checkpoint-000007.paths"));
}

#[test]
fn failed_install_removes_nothing() {
    for fail_at in 0..7 {
        let (mut install, _) = Install::start(job());
        for _ in 0..fail_at {
            assert!(!matches!(install.step(InstallEvent::Done), InstallAction::Remove(_)));
        }
        let end = install.step(InstallEvent::Failed("disk full".into()));
        assert!(matches!(&end, InstallAction::GaveUp(e) if e == "disk full"), "{fail_at}");
    }
}

#[test]
fn wal_open_appends_to_existing_segment_and_sweeps_tmp() {
    assert!(is_leftover(b"checkpoint.meta.tmp", &None));
    let mut disk = written(FsyncPolicy::No, &[commit("tx1_aaaaaaaa", 0, "(a)", 0, 1)]);
    // the newest segment is the one that is opened for appending
    let files = list_segments(&vec![seg_path(0)]);
    assert_eq!(newest_segment(&files), Some((0, seg_path(0))));
    let more = written(FsyncPolicy::No, &[commit("tx2_bbbbbbbb", 1, "(b)", 0, 2)]);
    disk.extend_from_slice(&more[magic_bytes().len()..]);
    let (recs, _) = read_segments(&vec![(0, disk)], 0).unwrap();
    assert_eq!(recs.len(), 2, "reopen must append, not overwrite");
}
