use mork_server::expr::{item_byte, Tag};
use mork_server::paths::PathMap;
use mork_server::sweep::af_topk::EcanAfTopK;
use mork_server::sweep::sti::{
    parse_sti_fact, read_max_af_size, NumberParts, Numbers, SnapshotStiIndex, StiFact, StiIndex,
};

/// What `f64` says of a text.
fn parts(text: &str) -> Option<NumberParts> {
    let x: f64 = text.parse().ok()?;
    let rank = if x.is_finite() && x >= 0.0 {
        Some(if x.is_sign_negative() { 0 } else { x.to_bits() + 1 })
    } else {
        None
    };
    let size = if x.is_finite() && x >= 0.0 && x.fract() == 0.0 && x <= usize::MAX as f64 {
        Some(x as usize)
    } else {
        None
    };
    Some(NumberParts { rank, size })
}

fn numbers(texts: &[&str]) -> Numbers {
    let mut t = Numbers::new();
    for text in texts {
        if let Some(p) = parts(text) {
            t.insert(text.to_string(), p);
        }
    }
    t
}

fn all_numbers() -> Numbers {
    numbers(&[
        "0", "0.0", "1", "1.0", "2", "2.0", "5", "7", "9", "10", "12.5", "99.0", "-1", "NaN", "inf", "many",
        "1.5", "1e999",
    ])
}

fn symbol(value: &[u8]) -> Vec<u8> {
    let mut encoded = vec![item_byte(Tag::SymbolSize(value.len() as u8))];
    encoded.extend_from_slice(value);
    encoded
}

fn expression(items: &[Vec<u8>]) -> Vec<u8> {
    let mut encoded = vec![item_byte(Tag::Arity(items.len() as u8))];
    for item in items {
        encoded.extend_from_slice(item);
    }
    encoded
}

fn fact(functor: &[u8], atom: Vec<u8>, value: &[u8]) -> Vec<u8> {
    expression(&[symbol(functor), atom, symbol(value)])
}

fn map_with(paths: &[Vec<u8>]) -> PathMap<u64> {
    let mut map = PathMap::new();
    for path in paths {
        map.insert(path, 1);
    }
    map
}

fn all_paths(map: &PathMap<u64>) -> Vec<Vec<u8>> {
    (0..map.val_count()).map(|i| map.entry(i).0.clone()).collect()
}

fn sti(atom: &[u8], value: &[u8]) -> Vec<u8> {
    expression(&[symbol(b"STI"), symbol(atom), symbol(value)])
}

fn param(value: &[u8]) -> Vec<u8> {
    expression(&[symbol(b"ECANParam"), symbol(b"MAX_AF_SIZE"), symbol(value)])
}

fn snapshot(max_af_size: usize, facts: &[(&[u8], &[u8])]) -> PathMap<u64> {
    let mut map = PathMap::new();
    map.insert(&param(max_af_size.to_string().as_bytes()), 1);
    for (atom, value) in facts {
        map.insert(&sti(atom, value), 1);
    }
    map
}

fn emitted(engine: &mut EcanAfTopK, map: &PathMap<u64>) -> Vec<Vec<u8>> {
    let mut paths = Vec::new();
    while let Ok(path) = engine.next_atom(map, &all_numbers()) {
        paths.push(path);
    }
    paths
}

#[test]
fn extracts_only_valid_exact_sti_facts_and_complete_paths() {
    let spider = fact(b"STI", symbol(b"spider"), b"12.5");
    let nested_atom = expression(&[symbol(b"Concept"), symbol(b"ant")]);
    let ant = fact(b"STI", nested_atom.clone(), b"0.0");
    let unrelated = fact(b"LTI", symbol(b"spider"), b"99.0");
    let map = map_with(&[spider.clone(), ant.clone(), unrelated]);

    let index = StiIndex::scan(&map, &all_numbers());

    assert_eq!(index.malformed_sti_facts, 0);
    assert_eq!(index.candidates.len(), 2);
    let rank = parts("12.5").unwrap().rank.unwrap();
    assert!(index.candidates.iter().any(|c| c.path == spider && c.sti == rank));
    assert!(index.candidates.iter().any(|c| c.path == ant && c.atom_key == nested_atom));
    assert!(index.candidates.iter().all(|c| map.contains(&c.path)));
}

#[test]
fn rejects_malformed_negative_nan_and_infinite_sti() {
    let paths = [
        fact(b"STI", symbol(b"negative"), b"-1"),
        fact(b"STI", symbol(b"nan"), b"NaN"),
        fact(b"STI", symbol(b"infinite"), b"inf"),
        fact(b"STI", symbol(b"text"), b"many"),
        expression(&[symbol(b"STI"), symbol(b"missing-value")]),
        expression(&[symbol(b"STI"), symbol(b"too"), symbol(b"1.0"), symbol(b"many")]),
    ];
    let map = map_with(&paths);

    let index = StiIndex::scan(&map, &all_numbers());

    assert!(index.candidates.is_empty());
    assert_eq!(index.malformed_sti_facts, paths.len() as u64);
}

#[test]
fn scan_is_deterministic_and_does_not_mutate_map() {
    let paths = [fact(b"STI", symbol(b"zeta"), b"1.0"), fact(b"STI", symbol(b"alpha"), b"2.0")];
    let map = map_with(&paths);
    let before = all_paths(&map);

    let first = StiIndex::scan(&map, &all_numbers());
    let second = StiIndex::scan(&map, &all_numbers());

    assert_eq!(format!("{first:?}"), format!("{second:?}"));
    // Ordering is by encoded atom identity, including the symbol-size tag.
    assert_eq!(first.candidates[0].atom_key, symbol(b"zeta"));
    assert_eq!(first.candidates[1].atom_key, symbol(b"alpha"));
    assert_eq!(all_paths(&map), before);
}

#[test]
fn snapshot_cache_rebuilds_lazily_only_after_change() {
    let first_map = map_with(&[fact(b"STI", symbol(b"first"), b"1.0")]);
    let second_map = map_with(&[fact(b"STI", symbol(b"second"), b"2.0")]);
    let one = parts("1.0").unwrap().rank.unwrap();
    let two = parts("2.0").unwrap().rank.unwrap();
    let n = all_numbers();
    let mut cache = SnapshotStiIndex::new();

    assert_eq!(cache.rebuild_count(), 0);
    assert_eq!(cache.get_or_build(&first_map, &n).candidates[0].sti, one);
    assert_eq!(cache.rebuild_count(), 1);
    assert_eq!(cache.get_or_build(&second_map, &n).candidates[0].sti, one);
    assert_eq!(cache.rebuild_count(), 1);

    cache.snapshot_changed();
    assert_eq!(cache.rebuild_count(), 1);
    assert_eq!(cache.get_or_build(&second_map, &n).candidates[0].sti, two);
    assert_eq!(cache.rebuild_count(), 2);
}

#[test]
fn emits_exact_top_k_once_and_never_emits_outside_af() {
    let map = snapshot(2, &[(b"low", b"1"), (b"highest", b"9"), (b"middle", b"5")]);
    let mut engine = EcanAfTopK::new();

    assert_eq!(emitted(&mut engine, &map), vec![sti(b"highest", b"9"), sti(b"middle", b"5")]);
    assert!(engine.next_atom(&map, &all_numbers()).is_err());
    assert!(engine.next_atom(&map, &all_numbers()).is_err());
}

#[test]
fn boundary_ties_use_encoded_atom_identity() {
    let map = snapshot(2, &[(b"bbbb", b"7"), (b"a", b"7"), (b"cc", b"7")]);
    let mut engine = EcanAfTopK::new();

    // Encoded symbols sort by their size tag before payload bytes.
    assert_eq!(emitted(&mut engine, &map), vec![sti(b"a", b"7"), sti(b"cc", b"7")]);
}

#[test]
fn snapshot_change_resets_exhausted_state() {
    let first = snapshot(1, &[(b"first", b"1")]);
    let second = snapshot(1, &[(b"second", b"2")]);
    let mut engine = EcanAfTopK::new();

    assert_eq!(emitted(&mut engine, &first), vec![sti(b"first", b"1")]);
    engine.snapshot_changed();
    assert_eq!(emitted(&mut engine, &second), vec![sti(b"second", b"2")]);
}

#[test]
fn process_instances_have_independent_iteration_state() {
    let map = snapshot(2, &[(b"first", b"2"), (b"second", b"1")]);
    let n = all_numbers();
    let mut diffusion = EcanAfTopK::new();
    let mut rent = EcanAfTopK::new();

    assert_eq!(diffusion.next_atom(&map, &n).unwrap(), sti(b"first", b"2"));
    assert_eq!(rent.next_atom(&map, &n).unwrap(), sti(b"first", b"2"));
    assert_eq!(diffusion.next_atom(&map, &n).unwrap(), sti(b"second", b"1"));
    assert_eq!(rent.next_atom(&map, &n).unwrap(), sti(b"second", b"1"));
}

#[test]
fn focus_size_errors_name_what_is_wrong() {
    let n = all_numbers();
    let size = |paths: &[Vec<u8>]| read_max_af_size(&map_with(paths), &n);
    assert_eq!(size(&[param(b"10")]), Ok(10));
    assert_eq!(size(&[]).unwrap_err(), "MAX_AF_SIZE fact not found");
    assert_eq!(size(&[param(b"many")]).unwrap_err(), "MAX_AF_SIZE is not numeric");
    assert_eq!(size(&[param(&[0xFF])]).unwrap_err(), "MAX_AF_SIZE is not UTF-8");
    for bad in [&b"1.5"[..], b"-1", b"NaN", b"1e999"] {
        assert_eq!(
            size(&[param(bad)]).unwrap_err(),
            "MAX_AF_SIZE must be a finite nonnegative integer"
        );
    }
    assert_eq!(size(&[param(b"1"), param(b"2")]).unwrap_err(), "multiple MAX_AF_SIZE facts found");
    let nested = expression(&[symbol(b"ECANParam"), symbol(b"MAX_AF_SIZE"), expression(&[])]);
    assert_eq!(size(&[nested]).unwrap_err(), "MAX_AF_SIZE must be a numeric symbol");
    let mut long = param(b"1");
    long.push(0xC1);
    long.push(b'x');
    assert_eq!(size(&[long]).unwrap_err(), "MAX_AF_SIZE fact has trailing data");
    let e = EcanAfTopK::new().next_atom(&map_with(&[]), &n).unwrap_err();
    assert_eq!(e.message, "MAX_AF_SIZE fact not found");
    let e = EcanAfTopK::new().next_atom(&snapshot(0, &[(b"a", b"1")]), &n).unwrap_err();
    assert_eq!(e.message, "attentional focus exhausted for current snapshot");
}

#[test]
fn facts_are_told_from_other_paths() {
    let n = all_numbers();
    assert!(matches!(parse_sti_fact(&sti(b"a", b"1"), &n), StiFact::Valid(_)));
    assert!(matches!(parse_sti_fact(&sti(b"a", b"-1"), &n), StiFact::Malformed));
    assert!(matches!(parse_sti_fact(&param(b"1"), &n), StiFact::Unrelated));
    assert!(matches!(parse_sti_fact(&symbol(b"STI"), &n), StiFact::Unrelated));
}

#[test]
fn atoms_with_variables_are_malformed() {
    let n = all_numbers();
    let variable = vec![item_byte(Tag::NewVar)];
    let reference = vec![item_byte(Tag::VarRef(0))];
    let nested = expression(&[symbol(b"Concept"), variable.clone()]);
    for atom in [variable, reference, nested] {
        assert!(!matches!(parse_sti_fact(&fact(b"STI", atom, b"1.0"), &n), StiFact::Valid(_)));
    }
    let ground = expression(&[symbol(b"Concept"), symbol(b"ant")]);
    assert!(matches!(parse_sti_fact(&fact(b"STI", ground, b"1.0"), &n), StiFact::Valid(_)));
}

#[test]
fn the_focus_comes_out_once_and_in_turn() {
    let map = snapshot(2, &[(b"bbbb", b"7"), (b"a", b"7"), (b"cc", b"7")]);
    let mut engine = EcanAfTopK::new();
    let n = all_numbers();
    assert_eq!(engine.next_atom(&map, &n).unwrap(), sti(b"a", b"7"));
    assert_eq!(engine.next_atom(&map, &n).unwrap(), sti(b"cc", b"7"));
    let e = engine.next_atom(&map, &n).unwrap_err();
    assert_eq!(e.message, "attentional focus exhausted for current snapshot");
}
