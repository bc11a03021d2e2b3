//! What a sweep is for: the oldest candidate that still fits is taken and every other one is
//! counted, the newest candidates are kept, and weights are sums.
use vstd::prelude::*;

use crate::bytes::starts_with;
use crate::paths::PathMap;
use crate::sweep::cpq::{chunks_of, is_chunk};
use crate::sweep::operation::{atom_report, decayed, transformed, Transform};
use crate::sweep::random_walk::{drawn, sample, samples_follow_weights, takes_draws};
use crate::sweep::registry::{
    counted, joined, joined_all, obsolete_in, obsolete_selected, of_version, take_existing,
    waiting, AtomCandidate, Buffers, CandidateView, SweepMetrics,
};
use crate::sweep::strategy::{strategy_name, strategy_of, Strategy};
use crate::sweep::weights::{agg_w, weight_below};
use crate::text::dec_text;

verus! {

proof fn lemma_filter_front<T>(s: Seq<T>, keep: spec_fn(T) -> bool)
    requires
        s.len() > 0,
    ensures
        s.filter(keep) == (if keep(s[0]) {
            seq![s[0]]
        } else {
            seq![]
        }) + s.drop_first().filter(keep),
    decreases s.len(),
{
    reveal_with_fuel(Seq::filter, 2);
    if s.len() == 1 {
        assert(s.drop_last() =~= seq![]);
        assert(s.drop_first() =~= seq![]);
    } else {
        lemma_filter_front(s.drop_last(), keep);
        assert(s.drop_last().drop_first() =~= s.drop_first().drop_last());
        assert(s.drop_last()[0] == s[0]);
        assert(s.drop_first().last() == s.last());
    }
}

/// The oldest candidate of the version whose path still exists is taken. What waited behind it
/// goes on waiting; what stood before it is gone, and was counted as stale or as missing. Where
/// none fits, all are gone and all are counted.
pub proof fn the_oldest_fit_is_taken(b: Seq<CandidateView>, live: Map<Seq<u8>, u64>, version: u64, i: int)
    requires
        0 <= i <= b.len(),
        forall|j: int|
            0 <= j < i ==> (#[trigger] b[j]).version != version || !live.contains_key(b[j].path),
        i < b.len() ==> b[i].version == version && live.contains_key(b[i].path),
    ensures
        ({
            let t = take_existing(b, live, version);
            &&& t.found == if i < b.len() {
                Some(b[i])
            } else {
                None
            }
            &&& t.rest == b.skip(if i < b.len() {
                i + 1
            } else {
                i
            })
            &&& t.stale == b.take(i).filter(|c: CandidateView| c.version != version).len()
            &&& t.missing == b.take(i).filter(
                |c: CandidateView| c.version == version && !live.contains_key(c.path),
            ).len()
        }),
    decreases b.len(),
{
    let stale = |c: CandidateView| c.version != version;
    let missing = |c: CandidateView| c.version == version && !live.contains_key(c.path);
    if i == 0 {
        reveal_with_fuel(Seq::filter, 1);
        assert(b.take(0) =~= seq![]);
        if b.len() == 0 {
            assert(b.skip(0) =~= b);
        } else {
            assert(b.skip(1) =~= b.drop_first());
        }
    } else {
        let rest = b.drop_first();
        assert(b[0].version != version || !live.contains_key(b[0].path));
        assert forall|j: int| 0 <= j < i - 1 implies (#[trigger] rest[j]).version != version
            || !live.contains_key(rest[j].path) by {
            assert(rest[j] == b[j + 1]);
        }
        the_oldest_fit_is_taken(rest, live, version, i - 1);
        assert(b.take(i).drop_first() =~= rest.take(i - 1));
        assert(b.take(i)[0] == b[0]);
        lemma_filter_front(b.take(i), stale);
        lemma_filter_front(b.take(i), missing);
        if i < b.len() {
            assert(b.skip(i + 1) =~= rest.skip(i));
            assert(b[i] == rest[i - 1]);
        } else {
            assert(b.skip(i) =~= rest.skip(i - 1));
        }
    }
}

/// Each counter grows by what it counts and by nothing else.
pub proof fn counters_count(m: SweepMetrics, b: Seq<CandidateView>, live: Map<Seq<u8>, u64>, version: u64)
    requires
        m.candidates_consumed + b.len() <= u64::MAX,
        m.stale_version_candidates + b.len() <= u64::MAX,
        m.missing_path_candidates + b.len() <= u64::MAX,
    ensures
        ({
            let t = take_existing(b, live, version);
            let after = counted(m, t);
            &&& after.candidates_consumed - m.candidates_consumed == (if t.found is Some {
                1int
            } else {
                0
            })
            &&& after.stale_version_candidates - m.stale_version_candidates == t.stale
            &&& after.missing_path_candidates - m.missing_path_candidates == t.missing
        }),
{
    crate::sweep::registry::taking_counts_every_candidate(b, live, version);
}

/// Discarding keeps exactly the candidates of the version, in their order.
pub proof fn discarding_is_by_version(b: Seq<CandidateView>, version: u64)
    ensures
        of_version(b, version) == b.filter(|c: CandidateView| c.version == version),
    decreases b.len(),
{
    reveal_with_fuel(Seq::filter, 1);
    if b.len() > 0 {
        discarding_is_by_version(b.drop_last(), version);
    }
}

proof fn lemma_others<T>(s: Seq<T>, keep: spec_fn(T) -> bool)
    ensures
        s.filter(keep).len() + s.filter(|x: T| !keep(x)).len() == s.len(),
    decreases s.len(),
{
    reveal_with_fuel(Seq::filter, 1);
    if s.len() > 0 {
        lemma_others(s.drop_last(), keep);
    }
}

/// What is discarded from the buffers is counted: the candidates of other versions of every
/// process.
pub proof fn the_discarded_are_counted(
    rows: Seq<(String, Vec<AtomCandidate>)>,
    version: u64,
    n: int,
)
    requires
        0 <= n <= rows.len(),
    ensures
        obsolete_in(rows, version, n) == rows.take(n).map_values(
            |row: (String, Vec<AtomCandidate>)|
                row.1@.filter(|c: AtomCandidate| c.snapshot_version != version).len() as int,
        ).fold_left(0int, |a: int, b: int| a + b),
    decreases n,
{
    let f = |row: (String, Vec<AtomCandidate>)|
        row.1@.filter(|c: AtomCandidate| c.snapshot_version != version).len() as int;
    let plus = |a: int, b: int| a + b;
    let counts = rows.take(n).map_values(f);
    reveal_with_fuel(Seq::fold_left, 2);
    if n == 0 {
        assert(counts =~= seq![]);
    } else {
        the_discarded_are_counted(rows, version, n - 1);
        assert(counts.drop_last() =~= rows.take(n - 1).map_values(f));
        assert(counts.last() == f(rows[n - 1]));
        let cs = rows[n - 1].1@;
        lemma_kept(cs, version);
        lemma_others(cs, |c: AtomCandidate| c.snapshot_version == version);
        let others = |c: AtomCandidate| !(|c: AtomCandidate| c.snapshot_version == version)(c);
        let stale = |c: AtomCandidate| c.snapshot_version != version;
        lemma_same_filter(cs, others, stale);
    }
}

proof fn lemma_same_filter<T>(s: Seq<T>, f: spec_fn(T) -> bool, g: spec_fn(T) -> bool)
    requires
        forall|x: T| #[trigger] f(x) == g(x),
    ensures
        s.filter(f) == s.filter(g),
    decreases s.len(),
{
    reveal_with_fuel(Seq::filter, 1);
    if s.len() > 0 {
        lemma_same_filter(s.drop_last(), f, g);
        assert(f(s.last()) == g(s.last()));
    }
}

proof fn lemma_kept(cs: Seq<AtomCandidate>, version: u64)
    ensures
        of_version(crate::sweep::registry::candidate_views(cs), version).len() == cs.filter(
            |c: AtomCandidate| c.snapshot_version == version,
        ).len(),
    decreases cs.len(),
{
    reveal_with_fuel(Seq::filter, 1);
    let vs = crate::sweep::registry::candidate_views(cs);
    if cs.len() > 0 {
        lemma_kept(cs.drop_last(), version);
        assert(vs.drop_last() =~= crate::sweep::registry::candidate_views(cs.drop_last()));
        assert(vs.last() == cs.last()@);
    }
}

/// What is discarded from the selection is counted: the candidates of other versions.
pub proof fn the_deselected_are_counted(
    rows: Seq<(String, AtomCandidate)>,
    version: u64,
    n: int,
)
    requires
        0 <= n <= rows.len(),
    ensures
        obsolete_selected(rows, version, n) == rows.take(n).filter(
            |row: (String, AtomCandidate)| row.1.snapshot_version != version,
        ).len(),
    decreases n,
{
    reveal_with_fuel(Seq::filter, 1);
    if n > 0 {
        the_deselected_are_counted(rows, version, n - 1);
        assert(rows.take(n).drop_last() =~= rows.take(n - 1));
    }
}

/// A process's buffer holds the last thousand of what was waiting and what was received for it,
/// in the order in which it came.
pub proof fn the_newest_candidates_wait(bs: Buffers, cs: Seq<CandidateView>, process: Seq<char>)
    requires
        waiting(bs, process).len() <= 1000,
    ensures
        ({
            let all = waiting(bs, process) + cs.filter(|c: CandidateView| c.process == process);
            waiting(joined_all(bs, cs), process) == if all.len() <= 1000 {
                all
            } else {
                all.skip(all.len() - 1000)
            }
        }),
    decreases cs.len(),
{
    reveal_with_fuel(Seq::filter, 1);
    let mine = |c: CandidateView| c.process == process;
    let all = waiting(bs, process) + cs.filter(mine);
    if cs.len() == 0 {
        assert(all =~= waiting(bs, process));
    } else {
        the_newest_candidates_wait(bs, cs.drop_last(), process);
        let before = joined_all(bs, cs.drop_last());
        let had = waiting(bs, process) + cs.drop_last().filter(mine);
        let c = cs.last();
        if c.process == process {
            assert(all =~= had.push(c));
            let b = waiting(before, process);
            let after = waiting(joined(before, c), process);
            if had.len() < 1000 {
                assert(after =~= all);
            } else {
                assert(b.len() == 1000);
                assert(after =~= b.drop_first().push(c));
                assert(after =~= all.skip(all.len() - 1000));
            }
        } else {
            assert(all =~= had);
        }
    }
}

/// Receiving candidates touches no process that none of them is for.
pub proof fn others_buffers_stay(bs: Buffers, cs: Seq<CandidateView>, process: Seq<char>)
    requires
        forall|i: int| 0 <= i < cs.len() ==> (#[trigger] cs[i]).process != process,
    ensures
        joined_all(bs, cs).contains_key(process) == bs.contains_key(process),
        waiting(joined_all(bs, cs), process) == waiting(bs, process),
    decreases cs.len(),
{
    if cs.len() > 0 {
        assert(cs.last().process != process);
        assert forall|i: int| 0 <= i < cs.drop_last().len() implies (
        #[trigger] cs.drop_last()[i]).process != process by {
            assert(cs.drop_last()[i] == cs[i]);
        }
        others_buffers_stay(bs, cs.drop_last(), process);
    }
}

/// A decay takes a tenth of a weight, rounded down, and at least one; nothing is taken of nothing.
pub proof fn a_decay_takes_a_tenth(w: u64)
    ensures
        w == 0 ==> decayed(w) == 0,
        0 < w < 10 ==> decayed(w) == w - 1,
        w >= 10 ==> 10 * (w - decayed(w)) <= w < 10 * (w - decayed(w)) + 10,
{
}

/// A decay changes the weight of its atom and of no other; it adds no atom and removes none.
pub proof fn only_the_atom_decays(before: Map<Seq<u8>, u64>, atom: Seq<u8>, other: Seq<u8>)
    ensures
        ({
            let after = transformed(Transform::Decay, before, atom);
            &&& after.dom() == before.dom()
            &&& other != atom ==> after[other] == before[other]
            &&& before.contains_key(atom) ==> if before[atom] < 10 {
                after[atom] == if before[atom] == 0 {
                    0int
                } else {
                    before[atom] - 1
                }
            } else {
                after[atom] == before[atom] - before[atom] / 10
            }
        }),
        transformed(Transform::LogAtom, before, atom) == before,
{
    assert(transformed(Transform::Decay, before, atom).dom() =~= before.dom());
}

/// The weight below a prefix is the sum of the weights of the paths that start with it.
pub proof fn a_weight_is_a_sum(m: Map<Seq<u8>, u64>, ps: Seq<Seq<u8>>, prefix: Seq<u8>)
    ensures
        weight_below(m, ps, prefix) == ps.filter(|p: Seq<u8>| prefix.is_prefix_of(p)).map_values(
            |p: Seq<u8>| m[p] as int,
        ).fold_left(0int, |a: int, b: int| a + b),
    decreases ps.len(),
{
    let below = |p: Seq<u8>| prefix.is_prefix_of(p);
    let weight = |p: Seq<u8>| m[p] as int;
    let plus = |a: int, b: int| a + b;
    reveal_with_fuel(Seq::filter, 1);
    reveal_with_fuel(Seq::fold_left, 2);
    let ws = ps.filter(below).map_values(weight);
    if ps.len() == 0 {
        assert(ws =~= seq![]);
    } else {
        a_weight_is_a_sum(m, ps.drop_last(), prefix);
        let front = ps.drop_last().filter(below);
        let p = ps.last();
        assert(starts_with(p, prefix) == prefix.is_prefix_of(p)) by {
            if p.len() >= prefix.len() {
                assert(p.take(prefix.len() as int) =~= p.subrange(0, prefix.len() as int));
            }
        }
        if below(p) {
            assert(ps.filter(below) =~= front.push(p));
            assert(ws =~= front.map_values(weight).push(m[p] as int));
            assert(ws.drop_last() =~= front.map_values(weight));
        } else {
            assert(ps.filter(below) =~= front);
        }
    }
}

/// Every atom is sampled on as many of the draws below the total as its weight, which lie side by
/// side, and larger draws start over; with no weight at all nothing is sampled.
pub proof fn draws_are_shared_by_weight(map: &PathMap<u64>, path: Seq<u8>) -> (start: nat)
    requires
        map.well_formed(),
        map@.contains_key(path),
    ensures
        start + map@[path] <= agg_w(map, seq![]),
        forall|draw: u64|
            agg_w(map, seq![]) > 0 ==> (#[trigger] sample(map, draw) == Some(path) <==> start <= (
            draw as nat) % agg_w(map, seq![]) < start + map@[path]),
        forall|draw: u64| agg_w(map, seq![]) == 0 ==> #[trigger] sample(map, draw) is None,
{
    samples_follow_weights(map, path);
    let start = choose|start: nat| #[trigger] takes_draws(map, path, start);
    let total = agg_w(map, seq![]);
    assert forall|draw: u64| total > 0 implies (#[trigger] sample(map, draw) == Some(path)
        <==> start <= (draw as nat) % total < start + map@[path]) by {
        let d = (draw as nat) % total;
        vstd::arithmetic::div_mod::lemma_mod_bound(draw as int, total as int);
        assert(sample(map, draw) == Some(drawn(map@, map.paths(), d)));
    }
    start
}

/// The chunks at a depth are the first bytes, that many, of the paths that have so many; a chunk
/// weighs as much as the paths that start with it.
pub proof fn chunks_are_the_heads_of_paths(
    m: Map<Seq<u8>, u64>,
    ps: Seq<Seq<u8>>,
    depth: nat,
    c: Seq<u8>,
)
    ensures
        chunks_of(m, ps, depth).contains_key(c) <==> depth > 0 && exists|i: int|
            0 <= i < ps.len() && (#[trigger] ps[i]).len() >= depth && c == ps[i].take(
                depth as int,
            ),
        chunks_of(m, ps, depth).contains_key(c) ==> chunks_of(m, ps, depth)[c] == ps.filter(
            |p: Seq<u8>| c.is_prefix_of(p),
        ).map_values(|p: Seq<u8>| m[p] as int).fold_left(0int, |a: int, b: int| a + b),
{
    a_weight_is_a_sum(m, ps, c);
    if chunks_of(m, ps, depth).contains_key(c) {
        let i = choose|i: int| 0 <= i < ps.len() && #[trigger] starts_with(ps[i], c);
        assert(ps[i].len() >= depth && c == ps[i].take(depth as int));
    }
    if depth > 0 && exists|i: int|
        0 <= i < ps.len() && (#[trigger] ps[i]).len() >= depth && c == ps[i].take(depth as int) {
        let i = choose|i: int|
            0 <= i < ps.len() && (#[trigger] ps[i]).len() >= depth && c == ps[i].take(depth as int);
        assert(starts_with(ps[i], c));
        assert(is_chunk(ps, depth, c));
    }
}

/// Three keys name a strategy, each another one, and no other key names any; a strategy reports
/// under the key that names it, but for the queue of chunks, which reports as `pq`.
pub proof fn strategies_are_named(key: Seq<char>)
    ensures
        strategy_of(key) is Some <==> key == "random_walk"@ || key == "cpq"@ || key
            == "ecan_af_topk"@,
        strategy_of(key) matches Some(s) ==> strategy_name(s) == if key == "cpq"@ {
            "pq"@
        } else {
            key
        },
        strategy_of(key) == Some(Strategy::RandomWalk) <==> key == "random_walk"@,
        strategy_of(key) == Some(Strategy::Cpq) <==> key == "cpq"@,
        strategy_of(key) == Some(Strategy::EcanAfTopK) <==> key == "ecan_af_topk"@,
{
    reveal_strlit("random_walk");
    reveal_strlit("cpq");
    reveal_strlit("ecan_af_topk");
    assert("random_walk"@.len() == 11 && "cpq"@.len() == 3 && "ecan_af_topk"@.len() == 12);
}

/// A report names the atom and its weight.
pub proof fn a_report_names_atom_and_weight(shown: Seq<char>, weight: nat)
    ensures
        atom_report(shown, weight) == "sweep atom: "@ + shown + " weight="@ + dec_text(weight),
{
}

/// Chunks are of four bytes.
pub proof fn chunks_are_of_four_bytes()
    ensures
        crate::sweep::strategy::CHUNK_DEPTH == 4,
{
}

} // verus!
