use mork_server::mvcc::{has_any_below, validate, writeset, CommitRecord, Committed, Conflict, WriteSet};
use mork_server::paths::{PathMap, Present};
use std::collections::VecDeque;

fn map(paths: &[&[u8]]) -> PathMap<Present> {
    let mut m = PathMap::new();
    for p in paths {
        m.insert(p, Present);
    }
    m
}

fn record(version: u64, added: &[&[u8]], removed: &[&[u8]], prefixes: &[&[u8]]) -> CommitRecord {
    CommitRecord {
        version,
        added: map(added),
        removed: map(removed),
        remove_prefixes: prefixes.iter().map(|p| p.to_vec()).collect(),
    }
}

fn ws(added: &[&[u8]], removed: &[&[u8]]) -> WriteSet {
    WriteSet { added: map(added), removed: map(removed) }
}

fn hist(rs: Vec<CommitRecord>) -> VecDeque<CommitRecord> {
    rs.into()
}

fn none() -> Vec<Vec<u8>> {
    Vec::new()
}

#[test]
fn writeset_is_the_difference_in_both_directions() {
    let base = map(&[b"a", b"b"]);
    let mut fin = base.copy();
    fin.insert(b"c", Present);
    fin.remove(b"a");

    let ws = writeset(&base, &fin);
    assert!(ws.added.contains(b"c"), "c was added");
    assert!(!ws.added.contains(b"b"), "b was untouched, not added");
    assert!(ws.removed.contains(b"a"), "a was removed");
    assert!(!ws.removed.contains(b"b"), "b was untouched, not removed");
}

#[test]
fn untouched_snapshot_has_an_empty_writeset() {
    let base = map(&[b"a", b"b", b"c"]);
    let w = writeset(&base, &base.copy());
    assert!(w.added.is_empty());
    assert!(w.removed.is_empty());
}

#[test]
fn has_any_below_finds_descendants() {
    let m = map(&[b"edge/a", b"edge/b", b"node/x"]);
    assert!(has_any_below(&m, b"edge"));
    assert!(has_any_below(&m, b"node"));
    assert!(!has_any_below(&m, b"weight"));
}

#[test]
fn has_any_below_finds_the_value_at_the_prefix_itself() {
    let m = map(&[b"edge"]);
    assert!(has_any_below(&m, b"edge"), "must see the value AT the prefix");
}

#[test]
fn has_any_below_on_empty_map_is_false() {
    let m: PathMap<Present> = PathMap::new();
    assert!(!has_any_below(&m, b"anything"));
}

#[test]
fn sibling_paths_under_a_shared_prefix_do_not_conflict() {
    let h = hist(vec![record(2, &[b"edge/a/c"], &[], &[])]);
    let mine = ws(&[b"edge/a/b"], &[]);
    assert!(validate(&mine, &none(), 1, &h).is_ok());
}

#[test]
fn wholly_disjoint_paths_do_not_conflict() {
    let h = hist(vec![record(2, &[b"weight/x"], &[], &[])]);
    let mine = ws(&[b"edge/a/b"], &[]);
    assert!(validate(&mine, &none(), 1, &h).is_ok());
}

#[test]
fn both_adding_the_same_path_does_not_conflict() {
    let h = hist(vec![record(2, &[b"edge/a/b"], &[], &[])]);
    let mine = ws(&[b"edge/a/b"], &[]);
    assert!(validate(&mine, &none(), 1, &h).is_ok());
}

#[test]
fn both_removing_the_same_path_does_not_conflict() {
    let h = hist(vec![record(2, &[], &[b"edge/a/b"], &[])]);
    let mine = ws(&[], &[b"edge/a/b"]);
    assert!(validate(&mine, &none(), 1, &h).is_ok());
}

#[test]
fn my_add_versus_their_remove_conflicts() {
    let h = hist(vec![record(2, &[], &[b"edge/a/b"], &[])]);
    let mine = ws(&[b"edge/a/b"], &[]);
    assert!(matches!(validate(&mine, &none(), 1, &h), Err(Conflict::WriteWrite)));
}

#[test]
fn my_remove_versus_their_add_conflicts() {
    let h = hist(vec![record(2, &[b"edge/a/b"], &[], &[])]);
    let mine = ws(&[], &[b"edge/a/b"]);
    assert!(matches!(validate(&mine, &none(), 1, &h), Err(Conflict::WriteWrite)));
}

#[test]
fn my_pattern_removal_versus_their_new_matching_path_is_a_phantom() {
    let h = hist(vec![record(2, &[b"edge/c"], &[], &[])]);
    let mine = ws(&[], &[b"edge/a", b"edge/b"]);
    assert!(matches!(validate(&mine, &vec![b"edge".to_vec()], 1, &h), Err(Conflict::Phantom)));
}

#[test]
fn their_pattern_removal_versus_my_new_matching_path_is_a_phantom() {
    let h = hist(vec![record(2, &[], &[b"edge/a"], &[b"edge"])]);
    let mine = ws(&[b"edge/c"], &[]);
    assert!(matches!(validate(&mine, &none(), 1, &h), Err(Conflict::Phantom)));
}

#[test]
fn pattern_removal_does_not_conflict_with_an_unrelated_prefix() {
    let h = hist(vec![record(2, &[b"weight/c"], &[], &[])]);
    let mine = ws(&[], &[b"edge/a"]);
    assert!(validate(&mine, &vec![b"edge".to_vec()], 1, &h).is_ok());
}

#[test]
fn records_at_or_below_my_base_are_ignored() {
    let h = hist(vec![record(2, &[], &[b"edge/a/b"], &[])]);
    let mine = ws(&[b"edge/a/b"], &[]);
    assert!(validate(&mine, &none(), 2, &h).is_ok());
}

#[test]
fn empty_history_never_conflicts() {
    let h = hist(vec![]);
    let mine = ws(&[b"edge/a"], &[b"edge/b"]);
    assert!(validate(&mine, &vec![b"edge".to_vec()], 0, &h).is_ok());
}

#[test]
fn empty_remove_prefix_conflicts_with_any_concurrent_add() {
    let h = hist(vec![record(2, &[b"weight/x"], &[], &[])]);
    let mine = ws(&[], &[]);
    assert!(matches!(validate(&mine, &vec![Vec::new()], 1, &h), Err(Conflict::Phantom)));
}

#[test]
fn conflicts_explain_themselves() {
    assert_ne!(Conflict::WriteWrite.reason(), Conflict::Phantom.reason());
}

#[test]
fn installs_count_versions_and_keep_only_reachable_history() {
    let mut c = Committed::new(map(&[b"a"]), 0);
    let base = c.begin();
    assert_eq!(c.install(ws(&[b"b"], &[]), none()), 1);
    assert_eq!(c.install(ws(&[], &[b"a"]), none()), 2);
    assert_eq!(c.history.len(), 2);
    assert!(c.btm.contains(b"b") && !c.btm.contains(b"a"));
    c.end(base);
    assert_eq!(c.active_bases.len(), 0);
    assert_eq!(c.history.len(), 0);
}

#[test]
fn without_a_conflict_the_order_of_installs_does_not_matter() {
    let first = ws(&[b"x"], &[]);
    let h = hist(vec![record(1, &[b"y"], &[b"b"], &[])]);
    assert!(validate(&first, &none(), 0, &h).is_ok());
    let mut one = Committed::new(map(&[b"a", b"b"]), 0);
    one.install(ws(&[b"x"], &[]), none());
    one.install(ws(&[b"y"], &[b"b"]), none());
    let mut other = Committed::new(map(&[b"a", b"b"]), 0);
    other.install(ws(&[b"y"], &[b"b"]), none());
    other.install(ws(&[b"x"], &[]), none());
    for p in [b"a", b"b", b"x", b"y"] {
        assert_eq!(one.btm.contains(p), other.btm.contains(p));
    }
}
