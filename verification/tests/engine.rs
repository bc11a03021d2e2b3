use mork_server::engine::{
    check_meta, txid_count, Answer, Committer, Recovery, TxResult,
};
use mork_server::mvcc::Committed;
use mork_server::paths::{PathMap, Present};
use mork_server::run_loop::{maybe_checkpoint, EngineLoop, LoopAction, LoopEvent};
use mork_server::transaction::{Event, TxId};
use mork_server::wal::files::CkptMeta;
use mork_server::wal::record::OwnedRec;
use mork_server::wal::segments::{magic_bytes, read_segments};
use mork_server::wal::writer::{FsyncPolicy, Wal};
use mork_server::worker::{TxResultParts, WorkerOutcome};

fn id(text: &str) -> TxId {
    TxId::new(text.to_string()).unwrap()
}

fn result(tx: &TxId, base_version: u64, btm: PathMap<Present>) -> TxResult {
    TxResult {
        id: tx.clone(),
        base_version,
        source: "(a)".into(),
        btm,
        remove_prefixes: Vec::new(),
        count: 1,
        steps: 1,
        outcome: WorkerOutcome::Quiesced,
    }
}

#[test]
fn checkpoint_is_deferred_while_a_transaction_is_in_flight_and_proceeds_once_it_ends() {
    let mut committed = Committed::new(PathMap::new(), 0);
    let base = committed.begin();
    let mut next_checkpoint = 1u64;
    let mut wal = Some(Wal::open(FsyncPolicy::Always));
    let asked = maybe_checkpoint(&committed, 1, 1, 0, &mut wal, true, &mut next_checkpoint);
    assert!(asked.is_none(), "a checkpoint must not start while a transaction is in flight");
    assert_eq!(next_checkpoint, 1, "a deferred checkpoint must stay due, not advance");
    committed.end(base);
    let asked = maybe_checkpoint(&committed, 1, 1, 0, &mut wal, true, &mut next_checkpoint);
    assert_eq!(next_checkpoint, 2, "the due-flag advances once a checkpoint is actually accepted");
    assert!(asked.is_some(), "the checkpoint must proceed once nothing is in flight");
}

#[test]
fn deferred_checkpoint_stays_due_across_multiple_skips() {
    let mut committed = Committed::new(PathMap::new(), 0);
    let base = committed.begin();
    let mut next_checkpoint = 10u64;
    let mut wal = Some(Wal::open(FsyncPolicy::Always));
    for finished in [10, 12, 15] {
        maybe_checkpoint(&committed, finished, 10, 0, &mut wal, true, &mut next_checkpoint);
        assert_eq!(next_checkpoint, 10, "still due: the transaction never ended");
    }
    committed.end(base);
    maybe_checkpoint(&committed, 15, 10, 0, &mut wal, true, &mut next_checkpoint);
    assert_eq!(next_checkpoint, 15 + 10);
}

#[test]
fn commit_refuses_a_poisoned_wal_and_still_installs_on_a_healthy_one() {
    for poisoned in [true, false] {
        let mut wal = Wal::open(FsyncPolicy::Always);
        wal.poisoned = poisoned;
        let mut c = Committer::new(Committed::new(PathMap::new(), 7));
        let tx = id("tx1_poisoned");
        let job = c.dispatch(tx.clone(), "(a)".into());
        assert_eq!(job.base_version, 7);
        let mut btm = job.base.copy();
        btm.insert(b"\x01a", Present);
        let o = c.commit(result(&tx, 7, btm), Some(&wal));
        if poisoned {
            assert_eq!(c.committed.version, 7, "a poisoned log must not install anything");
            let Answer::Now(Err(err)) = &o.answer else {
                panic!("a poisoned log must not be acknowledged as committed");
            };
            assert!(err.starts_with("unavailable:"), "must map to a 503, got: {err}");
            assert_eq!(o.events.len(), 1);
            assert_eq!(o.events[0], Event::Abort { tx, reason: err.clone(), version: 7 });
            assert!(!o.installed);
        } else {
            assert_eq!(c.committed.version, 8, "a healthy log must still install");
            assert!(o.installed);
        }
        assert_eq!(c.bases.len(), 0, "the retained base must be released on every path");
        assert_eq!(c.active.len(), 0, "the tx must leave `active` on every path");
        assert_eq!(c.committed.active_bases.len(), 0);
    }
}

#[test]
fn only_always_hands_the_client_reply_to_the_wal_to_fire_after_its_fsync() {
    for policy in [FsyncPolicy::Always, FsyncPolicy::Everysec] {
        let wal = Wal::open(policy);
        let mut c = Committer::new(Committed::new(PathMap::new(), 7));
        let tx = id("tx1_fsyncack");
        let job = c.dispatch(tx.clone(), "(a)".into());
        let mut btm = job.base.copy();
        btm.insert(b"\x01a", Present);
        let o = c.commit(result(&tx, 7, btm), Some(&wal));
        assert_eq!(c.committed.version, 8, "the transaction installs under either policy");
        let ok = match (policy, o.answer) {
            (FsyncPolicy::Always, Answer::ByLog(ok)) => ok,
            (FsyncPolicy::Everysec, Answer::Now(Ok(ok))) => ok,
            _ => panic!("who answers depends on the policy"),
        };
        assert_eq!((ok.tx, ok.count, ok.version), (tx, 1, 8));
        assert_eq!(c.bases.len(), 0, "the retained base must be released on every path");
        assert_eq!(c.active.len(), 0, "the tx must leave `active` on every path");
        assert_eq!(
            c.committed.active_bases.len(),
            0,
            "handing the reply to the wal must still end the transaction's lifetime"
        );
        // the record that is handed to the log reads back
        let mut disk = magic_bytes();
        disk.extend_from_slice(&o.frame.unwrap());
        let (recs, _) = read_segments(&vec![(0, disk)], 0).unwrap();
        assert!(matches!(&recs[0], OwnedRec::Commit { base_version: 7, version: 8, .. }));
    }
}

#[test]
fn a_conflicting_transaction_aborts_and_changes_nothing() {
    let mut start: PathMap<Present> = PathMap::new();
    start.insert(b"p", Present);
    let mut c = Committer::new(Committed::new(start, 0));
    let (one, two) = (id("tx1_aaaaaaaa"), id("tx2_bbbbbbbb"));
    let a = c.dispatch(one.clone(), "(a)".into());
    let b = c.dispatch(two.clone(), "(b)".into());
    let mut first = a.base.copy();
    first.remove(b"p");
    assert!(c.commit(result(&one, a.base_version, first), None).installed);
    // the second one removes by a pattern what the first one touched, and adds below it
    let mut second = b.base.copy();
    second.insert(b"q", Present);
    let mut r = result(&two, b.base_version, second);
    r.outcome = WorkerOutcome::Failed("exec failed".into());
    let o = c.commit(r, None);
    assert!(!o.installed);
    assert_eq!(c.committed.version, 1);
    assert!(!c.committed.btm.contains(b"q"));
    assert!(matches!(o.events[0], Event::Abort { .. }));
}

#[test]
fn a_worker_conflict_is_reported() {
    let mut start: PathMap<Present> = PathMap::new();
    start.insert(b"p", Present);
    let mut c = Committer::new(Committed::new(start, 0));
    let (one, two) = (id("tx1_aaaaaaaa"), id("tx2_bbbbbbbb"));
    let a = c.dispatch(one.clone(), "(a)".into());
    let b = c.dispatch(two.clone(), "(b)".into());
    let mut first = a.base.copy();
    first.insert(b"e/new", Present);
    c.commit(result(&one, a.base_version, first), None);
    let mut second = b.base.copy();
    second.remove(b"p");
    let mut r = result(&two, b.base_version, second);
    r.remove_prefixes = vec![b"e".to_vec()];
    let o = c.commit(r, None);
    let Answer::Now(Err(_)) = o.answer else { panic!("a phantom aborts") };
    assert!(c.committed.btm.contains(b"p"));
}

#[test]
fn recovery_replays_the_log_in_order() {
    let mut r = Recovery::start(None);
    let rec = |id: &str, base_version: u64, version: u64| OwnedRec::Commit {
        id: id.into(),
        base_version,
        source: "(a)".into(),
        steps: 1,
        version,
    };
    for (k, (name, base_version)) in [("tx4_aaaaaaaa", 0u64), ("tx9_bbbbbbbb", 0)].iter().enumerate() {
        let one = rec(name, *base_version, k as u64 + 1);
        let base = r.base_for(&one).unwrap();
        let mut btm = base.copy();
        btm.insert(&[k as u8], Present);
        let parts = TxResultParts {
            btm,
            remove_prefixes: vec![],
            count: 1,
            steps: 1,
            outcome: WorkerOutcome::Quiesced,
        };
        r.replayed(&one, &base, parts).unwrap();
    }
    let (committed, counter) = r.finish();
    assert_eq!(committed.version, 2);
    assert!(committed.btm.contains(&[0]) && committed.btm.contains(&[1]));
    assert_eq!(counter, 9, "fresh ids start behind the highest one in the log");
    let missing = Recovery::start(None).base_for(&rec("tx1_aaaaaaaa", 5, 6));
    assert!(missing.is_err());
}

#[test]
fn checkpoint_descriptions_are_checked() {
    let mut m = CkptMeta {
        snapshot: "checkpoint-000003.paths".into(),
        format: "paths".into(),
        version: 3,
        tx_counter: 8,
        first_segment: 1,
    };
    assert!(check_meta(&m, true).is_ok());
    assert!(check_meta(&m, false).is_err());
    m.format = "act".into();
    assert_eq!(check_meta(&m, true).unwrap_err(), "unsupported checkpoint format 'act'");
}

#[test]
fn id_counts_are_read_back() {
    assert_eq!(txid_count("tx17_si49f8v6"), Some(17));
    assert_eq!(txid_count("txA"), None);
}

#[test]
fn the_loop_never_overcommits_and_stops_when_idle_and_closed() {
    let mut l = EngineLoop::start(1);
    assert_eq!(l.step(LoopEvent::Nothing), LoopAction::TryRequest);
    assert_eq!(l.step(LoopEvent::Got), LoopAction::TryResult);
    assert_eq!(l.in_flight, 1);
    assert_eq!(l.step(LoopEvent::Nothing), LoopAction::WaitResult { timed: false });
    assert_eq!(l.step(LoopEvent::Got), LoopAction::TryResult);
    assert_eq!((l.in_flight, l.finished), (0, 1));
    assert_eq!(l.step(LoopEvent::Nothing), LoopAction::TryRequest);
    assert_eq!(l.step(LoopEvent::Closed), LoopAction::Stop);
}

#[test]
fn a_checkpoint_that_is_not_wanted_needs_no_room() {
    let committed = Committed::new(PathMap::new(), 0);
    let mut next_checkpoint = u64::MAX;
    let mut wal = Some(Wal::open(FsyncPolicy::Always));
    let asked = maybe_checkpoint(&committed, 5, u64::MAX, 0, &mut wal, true, &mut next_checkpoint);
    assert!(asked.is_none());
    assert_eq!(next_checkpoint, u64::MAX);
}
