use mork_server::paths::PathMap;
use mork_server::scheduler::{
    CycleScheduler, RoundAction, ScheduleAction, SchedulePolicy, SweepSpace,
};
use mork_server::sweep::registry::{AtomCandidate, ProcessId, WeightedAtomSweep, WeightedAtomSweepSettings};

fn symbol(value: &str) -> Vec<u8> {
    let mut encoded = vec![0xC0 + value.len() as u8];
    encoded.extend_from_slice(value.as_bytes());
    encoded
}

fn list(items: &[Vec<u8>]) -> Vec<u8> {
    let mut encoded = vec![items.len() as u8];
    for item in items {
        encoded.extend_from_slice(item);
    }
    encoded
}

/// `(exec loc (I (WAS process $)) (O))`
fn rule(loc: &str, process: &str) -> Vec<u8> {
    let source = list(&[symbol("WAS"), symbol(process), vec![0xC0]]);
    list(&[symbol("exec"), symbol(loc), list(&[symbol("I"), source]), list(&[symbol("O")])])
}

fn space(paths: &[Vec<u8>]) -> SweepSpace {
    let mut btm = PathMap::new();
    for p in paths {
        btm.insert(p, 3);
    }
    SweepSpace {
        btm,
        was: WeightedAtomSweep::new(WeightedAtomSweepSettings::default()),
        snapshot_version: 1,
    }
}

fn candidates(process: &str, path: &[u8], n: usize) -> Vec<AtomCandidate> {
    (0..n)
        .map(|_| AtomCandidate {
            process_id: ProcessId(process.into()),
            path: path.to_vec(),
            snapshot_version: 1,
        })
        .collect()
}

fn fair(credits: usize) -> CycleScheduler {
    CycleScheduler::new(SchedulePolicy::Fair {
        foreground_credits: 4,
        background_credits_per_process: credits,
    })
}

/// Runs a round; returns the interpreted rules and the work done.
fn run(s: &mut CycleScheduler, space: &mut SweepSpace, received: &Vec<AtomCandidate>) -> (Vec<Vec<u8>>, usize) {
    let mut round = s.run_background_round(space, received);
    let mut rules = Vec::new();
    loop {
        match round.next(s, space) {
            RoundAction::Interpret(rule) => {
                assert!(!space.btm.contains(&rule), "the rule is out while it is interpreted");
                rules.push(rule);
                round.interpreted(space);
            }
            RoundAction::Done(work) => return (rules, work),
        }
    }
}

#[test]
fn rounds_serve_processes_by_name_up_to_their_credits() {
    let mut space = space(&[b"atom".to_vec(), rule("0", "zeta"), rule("1", "alpha"), rule("2", "alpha")]);
    let mut received = candidates("zeta", b"atom", 5);
    received.extend(candidates("alpha", b"atom", 1));
    let mut s = fair(2);
    let (rules, work) = run(&mut s, &mut space, &received);
    assert_eq!(rules, vec![rule("1", "alpha"), rule("0", "zeta"), rule("0", "zeta")]);
    assert_eq!(work, 3);
    assert_eq!(space.snapshot_version, 2);
    assert_eq!(space.btm.get(&rule("0", "zeta")), Some(3), "rules persist");
    assert_eq!(space.was.metrics.candidates_consumed, 3);
}

#[test]
fn configured_order_and_credits_win() {
    let mut space = space(&[b"atom".to_vec(), rule("0", "zeta"), rule("1", "alpha")]);
    let mut received = candidates("zeta", b"atom", 5);
    received.extend(candidates("alpha", b"atom", 5));
    let mut s = fair(9);
    s.configure_process(ProcessId("zeta".into()), 1);
    s.configure_process(ProcessId("nobody".into()), 1);
    s.configure_process(ProcessId("alpha".into()), 2);
    s.configure_process(ProcessId("zeta".into()), 3);
    assert_eq!(s.process_order.len(), 3);
    let (rules, work) = run(&mut s, &mut space, &received);
    assert_eq!(work, 5);
    assert_eq!(rules[0], rule("0", "zeta"));
    assert_eq!(rules[3], rule("1", "alpha"));
}

#[test]
fn a_round_without_candidates_publishes_nothing() {
    let mut space = space(&[rule("0", "p")]);
    let (name, _) = space.was.spawn();
    let mut s = fair(2);
    let (rules, work) = run(&mut s, &mut space, &candidates("p", b"gone", 3));
    assert_eq!((rules.len(), work), (0, 0));
    assert_eq!(space.snapshot_version, 1);
    assert_eq!(space.was.metrics.missing_path_candidates, 3);
    assert_eq!(space.was.controllers.get(&name).unwrap().latest, None);
}

#[test]
fn only_structural_sources_make_background_rules() {
    // the bytes `WAS` occur, but not as the head of a source
    let tricky = list(&[symbol("exec"), symbol("0"), symbol("WAS"), list(&[symbol("x"), symbol("WAS")])]);
    let mut space = space(&[b"atom".to_vec(), tricky, list(&[symbol("WAS"), symbol("p"), symbol("q")])]);
    let mut s = fair(1);
    let (rules, work) = run(&mut s, &mut space, &candidates("p", b"atom", 1));
    assert_eq!((rules.len(), work), (0, 0));
    assert_eq!(s.background_rules.len(), 0);
}

#[test]
fn steps_follow_the_policy() {
    let s = fair(1);
    assert_eq!(s.schedule_step(None, None), ScheduleAction::Foreground(4));
    assert_eq!(s.schedule_step(Some(3), None), ScheduleAction::Background);
    assert_eq!(s.schedule_step(Some(3), Some(2)), ScheduleAction::Finished(5));
    let p = CycleScheduler::new(SchedulePolicy::ForegroundPriority { max_foreground_quantum: 7 });
    assert_eq!(p.schedule_step(None, None), ScheduleAction::Foreground(7));
    assert_eq!(p.schedule_step(Some(0), None), ScheduleAction::Background);
    assert_eq!(p.schedule_step(Some(0), Some(6)), ScheduleAction::Finished(6));
    assert_eq!(p.schedule_step(Some(1), None), ScheduleAction::Finished(1));
}
