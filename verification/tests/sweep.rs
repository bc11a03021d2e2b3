use mork_server::paths::PathMap;
use mork_server::sweep::cpq::ChunkedPQTraverse;
use mork_server::sweep::operation::{build_operation, Operation, TransformOp};
use mork_server::sweep::random_walk::RandomWalk;
use mork_server::sweep::registry::{
    AtomCandidate, ProcessId, SweepMetrics, WeightedAtomSweep, WeightedAtomSweepSettings,
    CANDIDATE_BUFFER_CAPACITY,
};
use mork_server::sweep::strategy::{build_strategy, Strategy, TraversalError};
use mork_server::sweep::traversal::{OfferAnswer, SampleAction, Traversal};
use mork_server::sweep::weights::{node_agg_w, WeightedMap};

fn make_sweep() -> WeightedAtomSweep {
    WeightedAtomSweep::new(WeightedAtomSweepSettings::default())
}

fn create_map(values: &[(&[u8], u64)]) -> PathMap<u64> {
    let mut map = PathMap::<u64>::new();
    for &(path, val) in values {
        map.insert(path, val);
    }
    map
}

fn candidate(process: &ProcessId, path: &[u8], snapshot_version: u64) -> AtomCandidate {
    AtomCandidate { process_id: process.clone(), path: path.to_vec(), snapshot_version }
}

#[test]
fn build_operation_recognizes_decay() {
    let op = build_operation("decay", &[]).expect("decay must be buildable from config");
    assert_eq!(op.name(), "decay");
    assert!(build_operation("bogus_op", &[]).is_none(), "unknown op type → None");
}

#[test]
fn registers_ecan_af_topk_without_changing_existing_keys() {
    assert_eq!(build_strategy("ecan_af_topk").unwrap().name(), "ecan_af_topk");
    assert_eq!(build_strategy("random_walk").unwrap().name(), "random_walk");
    assert_eq!(build_strategy("cpq").unwrap().name(), "pq");
    assert!(build_strategy("unknown").is_none());
}

#[test]
fn strict_snapshot_validation_preserves_process_routing() {
    let mut sweep = make_sweep();
    let process_a = ProcessId("a".to_string());
    let process_b = ProcessId("b".to_string());
    let live_map = create_map(&[(&b"current"[..], 1)]);

    sweep.candidate_buffers.insert(
        "a".to_string(),
        vec![
            candidate(&process_a, b"current", 1),
            candidate(&process_a, b"missing", 2),
            candidate(&process_a, b"current", 2),
        ],
    );
    sweep.candidate_buffers.insert("b".to_string(), vec![candidate(&process_b, b"current", 2)]);

    assert!(sweep.select_existing_candidate(&process_a, &live_map, 2));
    assert_eq!(sweep.metrics.stale_version_candidates, 1);
    assert_eq!(sweep.metrics.missing_path_candidates, 1);
    assert_eq!(sweep.metrics.candidates_consumed, 1);
    assert_eq!(
        sweep.take_selected_candidate(&process_a, &live_map, 2).unwrap().process_id,
        process_a
    );
    assert_eq!(sweep.candidate_buffers.get("b").unwrap().len(), 1);
}

#[test]
fn replaced_exact_fact_cannot_be_consumed() {
    let mut sweep = make_sweep();
    let process = ProcessId("ecan_af_rent".to_string());
    let old_path = b"(STI atom 10)".to_vec();
    let new_path = b"(STI atom 9)".to_vec();
    let live_map = create_map(&[(&new_path, 1)]);
    sweep.candidate_buffers.insert("ecan_af_rent".to_string(), vec![candidate(&process, &old_path, 3)]);

    assert!(!sweep.select_existing_candidate(&process, &live_map, 3));
    assert_eq!(sweep.metrics.missing_path_candidates, 1);
    assert_eq!(sweep.metrics.candidates_consumed, 0);
}

#[test]
fn obsolete_buffered_and_reserved_candidates_are_cleared() {
    let mut sweep = make_sweep();
    let process = ProcessId("ecan_af_diffusion".to_string());
    let live_map = create_map(&[(&b"current"[..], 1)]);
    sweep.candidate_buffers.insert(
        "ecan_af_diffusion".to_string(),
        vec![candidate(&process, b"current", 4), candidate(&process, b"current", 5)],
    );
    assert!(sweep.select_existing_candidate(&process, &live_map, 4));

    sweep.discard_obsolete_candidates(5);

    assert!(sweep.take_selected_candidate(&process, &live_map, 5).is_none());
    assert_eq!(sweep.candidate_buffers.get("ecan_af_diffusion").unwrap().len(), 1);
    assert_eq!(sweep.metrics.stale_version_candidates, 1);
}

#[test]
fn spawn_populates_controllers() {
    let mut sweep = make_sweep();
    sweep.add_engine("e", "random_walk");
    let (name, processes) = sweep.spawn();
    assert!(!name.is_empty(), "spawn name should be non-empty");
    assert_eq!(processes.len(), 1);
    assert_eq!(sweep.controllers.len(), 1);
    assert!(sweep.controllers.contains_key(&name));
    assert_eq!(sweep.controllers.get(&name).unwrap().thread_count(), 1);
}

#[test]
fn spawn_returns_unique_names() {
    let mut sweep = make_sweep();
    sweep.add_engine("a", "random_walk");
    sweep.add_engine("b", "cpq");
    sweep.add_engine("c", "random_walk");
    let n1 = sweep.spawn().0;
    let n2 = sweep.spawn().0;
    let n3 = sweep.spawn().0;
    assert_ne!(n1, n2);
    assert_ne!(n2, n3);
    assert_eq!(sweep.controllers.len(), 3);
}

#[test]
fn shutdown_removes_controller() {
    let mut sweep = make_sweep();
    sweep.add_engine("e", "random_walk");
    let name = sweep.spawn().0;
    assert!(sweep.controllers.contains_key(&name));
    sweep.shutdown(&name);
    assert!(!sweep.controllers.contains_key(&name));
}

#[test]
fn shutdown_empties_all_controllers() {
    let mut sweep = make_sweep();
    sweep.add_engine("a", "random_walk");
    sweep.add_engine("b", "cpq");
    sweep.add_engine("c", "random_walk");
    sweep.spawn();
    sweep.spawn();
    sweep.spawn();
    assert_eq!(sweep.controllers.len(), 3);
    sweep.shutdown_all();
    assert_eq!(sweep.controllers.len(), 0);
}

#[test]
fn process_count_tracks_registered_processes() {
    let mut sweep = make_sweep();
    assert_eq!(sweep.process_count(), 0);
    sweep.add_engine("a", "random_walk");
    assert_eq!(sweep.process_count(), 1);
    sweep.add_engine("b", "cpq");
    assert_eq!(sweep.process_count(), 2);
}

#[test]
fn get_process_mut_returns_registered_process() {
    let mut sweep = make_sweep();
    sweep.add_engine("test_engine", "random_walk");
    let p = sweep.get_process("test_engine");
    assert!(p.is_some());
    assert_eq!(p.unwrap().id.0, "test_engine");
    assert_eq!(p.unwrap().engine, Strategy::RandomWalk);
    assert!(sweep.get_process("nonexistent").is_none());
}

#[test]
fn spawn_is_not_consuming() {
    let mut sweep = make_sweep();
    sweep.add_engine("a", "random_walk");
    let name1 = sweep.spawn().0;
    assert_eq!(sweep.controllers.len(), 1);
    sweep.add_engine("d", "random_walk");
    let name2 = sweep.spawn().0;
    assert_eq!(sweep.controllers.len(), 2);
    assert_ne!(name1, name2, "spawn handles must be unique");
    assert!(sweep.controllers.contains_key(&name2));
    sweep.shutdown_all();
    assert_eq!(sweep.controllers.len(), 0);
}

#[test]
fn test_cpq_does_not_relabel_old_paths_with_new_snapshot_version() {
    let mut engine = ChunkedPQTraverse::new(4);
    let mut thread = Traversal::new(ProcessId("cpq_engine".into()));
    let first_map = create_map(&[(&b"aaaa"[..], 1), (&b"aaab"[..], 1)]);
    assert_eq!(thread.looked(false, Some(1)), SampleAction::Sample { reset: true });
    engine.snapshot_changed();
    assert_eq!(thread.sampled(engine.next_atom(&first_map).ok()), SampleAction::Offer(0));
    let first = thread.pending().unwrap().copy();
    assert_eq!((first.path.as_slice(), first.snapshot_version), (&b"aaaa"[..], 1));
    assert_eq!(thread.offered(OfferAnswer::Sent), SampleAction::Look(0));

    let second_map = create_map(&[(&b"bbbb"[..], 1)]);
    assert_eq!(thread.looked(false, Some(2)), SampleAction::Sample { reset: true });
    engine.snapshot_changed();
    thread.sampled(engine.next_atom(&second_map).ok());
    let second = thread.pending().unwrap();
    assert_eq!((second.path.as_slice(), second.snapshot_version), (&b"bbbb"[..], 2));
}

#[test]
fn threads_wait_retry_and_stop() {
    let mut t = Traversal::new(ProcessId("p".into()));
    assert_eq!(t.looked(false, None), SampleAction::Look(10));
    assert_eq!(t.looked(false, Some(1)), SampleAction::Sample { reset: true });
    assert_eq!(t.looked(false, None), SampleAction::Sample { reset: false });
    assert_eq!(t.sampled(None), SampleAction::Look(10));
    assert_eq!(t.sampled(Some(vec![7])), SampleAction::Offer(0));
    assert_eq!(t.offered(OfferAnswer::Full), SampleAction::Offer(5));
    assert_eq!(t.pending().unwrap().path, vec![7]);
    assert_eq!(t.offered(OfferAnswer::Disconnected), SampleAction::Look(0));
    assert!(t.pending().is_none());
    assert_eq!(t.looked(true, Some(2)), SampleAction::Exit);
}

#[test]
fn agg_w_agg_w_parity() {
    let map = create_map(&[(&b"ax"[..], 10), (&b"ab"[..], 5), (&b"ac"[..], 3), (&b"b"[..], 20)]);
    for (path, want) in
        [(&b""[..], 38u64), (&b"a"[..], 18), (&b"ax"[..], 10), (&b"ab"[..], 5), (&b"ac"[..], 3), (&b"b"[..], 20)]
    {
        assert_eq!(node_agg_w(&map, path).unwrap(), want);
    }
}

#[test]
fn smoke_test_agg_w_parity() {
    let mut map = WeightedMap { inner: PathMap::new() };
    for &(path, val) in &[(&b"ax"[..], 10), (&b"ab"[..], 5), (&b"ac"[..], 3), (&b"b"[..], 20)] {
        map.set_weighted_val(path, val).unwrap();
    }
    for path in [&b""[..], &b"a"[..], &b"ax"[..], &b"ab"[..], &b"ac"[..], &b"b"[..]] {
        let below = |i: &usize| map.inner.entry(*i).0.starts_with(path);
        let stored: u64 =
            (0..map.inner.val_count()).filter(below).map(|i| map.inner.entry(i).1).sum();
        assert_eq!(stored, node_agg_w(&map.inner, path).unwrap());
    }
}

#[test]
fn chunks_are_served_heaviest_first() {
    let map = create_map(&[
        (&b"aaaa1"[..], 3),
        (&b"aaaa2"[..], 4),
        (&b"bbbb"[..], 7),
        (&b"cccc"[..], 9),
        (&b"dd"[..], 100),
    ]);
    let mut engine = ChunkedPQTraverse::new(4);
    assert_eq!(engine.name(), "pq");
    assert_eq!(engine.next_atom(&map).unwrap(), b"cccc");
    assert_eq!(engine.next_atom(&map).unwrap(), b"aaaa");
    assert_eq!(engine.next_atom(&map).unwrap(), b"bbbb");
    // then it starts over
    assert_eq!(engine.next_atom(&map).unwrap(), b"cccc");
    engine.refresh(&create_map(&[(&b"eeee"[..], 1)]));
    assert_eq!(engine.next_atom(&map).unwrap(), b"eeee");
    let e = ChunkedPQTraverse::new(4).next_atom(&create_map(&[(&b"x"[..], 1)])).unwrap_err();
    assert_eq!(e.message, "Trie is empty or has no atoms at specified depth");
    assert!(ChunkedPQTraverse::new(0).next_atom(&map).is_err());
    assert_eq!(TraversalError { message: "m".into() }.to_text(), "traversal error: m");
}

#[test]
fn decay_lowers_weights_to_zero() {
    let mut map = create_map(&[(&b"aa"[..], 100), (&b"ab"[..], 200), (&b"ac"[..], 9)]);
    let op = Operation::decay();
    assert_eq!(op.report(&map, b"aa", ""), None);
    op.apply(&mut map, b"aa");
    op.apply(&mut map, b"ac");
    op.apply(&mut map, b"missing");
    assert_eq!(map.get(b"aa"), Some(90));
    assert_eq!(map.get(b"ac"), Some(8));
    assert_eq!(node_agg_w(&map, b"").unwrap(), 298);
    for _ in 0..200 {
        op.apply(&mut map, b"aa");
    }
    assert_eq!(map.get(b"aa"), Some(0));
    let log = Operation::log_atom();
    log.apply(&mut map, b"ab");
    assert_eq!((map.get(b"ab"), log.name()), (Some(200), "log-atom"));
    assert_eq!(log.report(&map, b"ab", "(x)").as_deref(), Some("sweep atom: (x) weight=200"));
    assert_eq!(log.report(&map, b"zz", "(z)").as_deref(), Some("sweep atom: (z) weight=0"));
}

#[test]
fn weighted_maps_read_back_what_was_set() {
    let mut m = WeightedMap { inner: PathMap::new() };
    assert_eq!(m.get_val(b"a"), None);
    assert_eq!(m.set_weighted_val(b"a", 5), Ok(()));
    assert_eq!(m.get_val(b"a"), Some(5));
}

#[test]
fn buffers_drop_the_oldest_at_capacity() {
    let mut sweep = make_sweep();
    let p = ProcessId("p".into());
    let many: Vec<AtomCandidate> =
        (0..CANDIDATE_BUFFER_CAPACITY as u64 + 2).map(|v| candidate(&p, b"x", v)).collect();
    sweep.buffer_candidates(&many);
    assert_eq!(sweep.candidate_buffers.get("p").unwrap().len(), CANDIDATE_BUFFER_CAPACITY);
    assert_eq!(sweep.pop_candidate(&p).unwrap().snapshot_version, 2);
    assert!(sweep.pop_candidate(&ProcessId("q".into())).is_none());
    assert_eq!(sweep.metrics, SweepMetrics::default());
}

#[test]
fn snapshots_reach_every_controller() {
    let mut sweep = make_sweep();
    let (a, _) = sweep.spawn();
    let (b, _) = sweep.spawn();
    sweep.publish_snapshot(6);
    assert_eq!(sweep.controllers.get(&a).unwrap().latest, Some(6));
    assert_eq!(sweep.controllers.get(&b).unwrap().latest, Some(6));
}

fn distribution_matches() -> bool {
    let mut map: PathMap<u64> = PathMap::new();
    map.insert(b"a", 100);
    map.insert(b"b", 200);
    map.insert(b"c", 50);
    let mut counts = [0usize; 3];
    for _ in 0..10_000 {
        let pos = RandomWalk.next_atom(&map).unwrap();
        counts[(pos[0] - b'a') as usize] += 1;
    }
    let expected = [28.6f64, 57.1, 14.3];
    (0..3).all(|i| (counts[i] as f64 / 10_000.0 * 100.0 - expected[i]).abs() < 5.0)
}

#[test]
fn agg_w_random_walk_distribution() {
    assert!(distribution_matches());
}

#[test]
fn smoke_test_random_walk_distribution() {
    assert!(distribution_matches());
}

#[test]
fn each_draw_below_the_total_falls_on_one_atom() {
    let mut map: PathMap<u64> = PathMap::new();
    map.insert(b"a", 2);
    map.insert(b"b", 0);
    map.insert(b"c", 3);
    let walked: Vec<Vec<u8>> = (0..6).map(|d| RandomWalk.atom_for(&map, d).unwrap()).collect();
    let want = ["a", "a", "c", "c", "c", "a"];
    assert_eq!(walked, want.map(|s| s.as_bytes().to_vec()).to_vec());
    assert_eq!(RandomWalk.name(), "random_walk");
    let empty: PathMap<u64> = PathMap::new();
    assert_eq!(RandomWalk.next_atom(&empty).unwrap_err().message, "no atom to sample");
}

#[test]
fn names_are_not_given_twice_after_shutdowns() {
    let mut sweep = make_sweep();
    let first = sweep.spawn().0;
    sweep.shutdown(&first);
    let second = sweep.spawn().0;
    sweep.publish_snapshot(4);
    sweep.shutdown_all();
    let third = sweep.spawn().0;
    assert_eq!([first, second, third], ["sweep-0", "sweep-1", "sweep-2"]);
}
