//! The weighted random walk: atoms are sampled in proportion to their weights.
use vstd::prelude::*;

use crate::paths::{copy_path, path_lt_irreflexive, PathMap};
use crate::sweep::strategy::TraversalError;
use crate::sweep::weights::{agg_w, lemma_weight_take, node_agg_w, weight_below};
use crate::wrap::random_number;

verus! {

/// The path on which a draw falls, when each listed path takes as many draws as it weighs, in
/// order.
pub open spec fn drawn(m: Map<Seq<u8>, u64>, ps: Seq<Seq<u8>>, d: nat) -> Seq<u8>
    decreases ps.len(),
{
    if ps.len() == 0 {
        seq![]
    } else if weight_below(m, ps.drop_last(), seq![]) <= d {
        ps.last()
    } else {
        drawn(m, ps.drop_last(), d)
    }
}

/// What a map gives for a draw: the path on which the draw falls, once it is brought below the
/// total weight. A map without weight gives nothing.
pub open spec fn sample(map: &PathMap<u64>, draw: u64) -> Option<Seq<u8>> {
    let total = agg_w(map, seq![]);
    if total == 0 {
        None
    } else {
        Some(drawn(map@, map.paths(), (draw as nat) % total))
    }
}

/// A draw between the weight before a path and the weight up to it falls on that path.
proof fn lemma_drawn(m: Map<Seq<u8>, u64>, ps: Seq<Seq<u8>>, i: int, d: nat)
    requires
        0 <= i < ps.len(),
        weight_below(m, ps.take(i), seq![]) <= d < weight_below(m, ps.take(i + 1), seq![]),
    ensures
        drawn(m, ps, d) == ps[i],
    decreases ps.len(),
{
    let rest = ps.drop_last();
    if i == ps.len() - 1 {
        assert(ps.take(i) =~= rest);
    } else {
        assert(rest.take(i) =~= ps.take(i));
        assert(rest.take(i + 1) =~= ps.take(i + 1));
        lemma_weight_take(m, rest, seq![], i + 1);
        lemma_drawn(m, rest, i, d);
    }
}

/// Every draw below the total weight falls between the weight before some path and the weight up
/// to it.
proof fn lemma_falls(m: Map<Seq<u8>, u64>, ps: Seq<Seq<u8>>, d: nat) -> (i: int)
    requires
        d < weight_below(m, ps, seq![]),
    ensures
        0 <= i < ps.len(),
        weight_below(m, ps.take(i), seq![]) <= d < weight_below(m, ps.take(i + 1), seq![]),
    decreases ps.len(),
{
    let rest = ps.drop_last();
    assert(ps.take(ps.len() - 1) =~= rest);
    assert(ps.take(ps.len() as int) =~= ps);
    if weight_below(m, rest, seq![]) <= d {
        ps.len() - 1
    } else {
        let i = lemma_falls(m, rest, d);
        assert(rest.take(i) =~= ps.take(i));
        assert(rest.take(i + 1) =~= ps.take(i + 1));
        i
    }
}

proof fn lemma_next_weight(m: Map<Seq<u8>, u64>, ps: Seq<Seq<u8>>, i: int)
    requires
        0 <= i < ps.len(),
    ensures
        weight_below(m, ps.take(i + 1), seq![]) == weight_below(m, ps.take(i), seq![]) + m[ps[i]],
{
    assert(ps.take(i + 1).drop_last() =~= ps.take(i));
    assert(ps[i].take(0) =~= seq![]);
}

/// Whether the draws from `start` on, as many as the path weighs, are the ones that fall on it.
pub open spec fn takes_draws(map: &PathMap<u64>, path: Seq<u8>, start: nat) -> bool {
    &&& start + map@[path] <= agg_w(map, seq![])
    &&& forall|d: nat|
        d < agg_w(map, seq![]) ==> (#[trigger] drawn(map@, map.paths(), d) == path <==> start <= d
            < start + map@[path])
}

/// Samples follow the weights: of the draws below the total weight, as many fall on an atom as
/// the atom weighs.
pub proof fn samples_follow_weights(map: &PathMap<u64>, path: Seq<u8>)
    requires
        map.well_formed(),
        map@.contains_key(path),
    ensures
        exists|start: nat| #[trigger] takes_draws(map, path, start),
{
    map.lemma_paths();
    let ps = map.paths();
    assert(ps.contains(path));
    let i = choose|i: int| 0 <= i < ps.len() && ps[i] == path;
    let start = weight_below(map@, ps.take(i), seq![]);
    lemma_next_weight(map@, ps, i);
    lemma_weight_take(map@, ps, seq![], i + 1);
    assert forall|d: nat| d < agg_w(map, seq![]) implies (#[trigger] drawn(map@, ps, d) == path
        <==> start <= d < start + map@[path]) by {
        let j = lemma_falls(map@, ps, d);
        lemma_drawn(map@, ps, j, d);
        if ps[j] == path && j != i {
            path_lt_irreflexive(path);
        }
        if start <= d < start + map@[path] {
            lemma_drawn(map@, ps, i, d);
        }
    }
    assert(takes_draws(map, path, start));
}

/// The weighted random walk.
#[derive(Clone, Copy, Debug)]
pub struct RandomWalk;

impl RandomWalk {
    /// The name of this engine.
    pub fn name(&self) -> (r: &'static str)
        ensures
            r@ == "random_walk"@,
    {
        "random_walk"
    }

    /// The atom that a draw gives. The total weight has to fit.
    pub fn atom_for(&self, map: &PathMap<u64>, draw: u64) -> (r: Result<Vec<u8>, TraversalError>)
        requires
            agg_w(map, seq![]) <= u64::MAX,
        ensures
            match sample(map, draw) {
                Some(p) => r matches Ok(path) && path@ == p,
                None => r matches Err(e) && e.message@ == "no atom to sample"@,
            },
    {
        let ghost ps = map.paths();
        let none: [u8; 0] = [];
        assert(none@ =~= seq![]);
        let total: u64 = match node_agg_w(map, none.as_slice()) {
            Ok(w) => w,
            Err(e) => {
                return Err(e);
            },
        };
        if total == 0 {
            return Err(TraversalError { message: "no atom to sample".to_string() });
        }
        let d: u64 = draw % total;
        let mut before: u64 = 0;
        let mut i: usize = 0;
        while i < map.val_count()
            invariant
                i <= ps.len(),
                ps == map.paths(),
                total == agg_w(map, seq![]),
                before == weight_below(map@, ps.take(i as int), seq![]),
                before <= d < total,
                d == (draw as nat) % (total as nat),
            decreases ps.len() - i,
        {
            proof {
                lemma_next_weight(map@, ps, i as int);
                lemma_weight_take(map@, ps, seq![], i + 1);
            }
            let (path, w) = map.entry(i);
            if d < before + w {
                proof {
                    lemma_drawn(map@, ps, i as int, d as nat);
                }
                return Ok(copy_path(path));
            }
            before = before + w;
            i = i + 1;
        }
        assert(ps.take(i as int) =~= ps);
        Err(TraversalError { message: "no atom to sample".to_string() })
    }

    /// Samples an atom. Which one is left to chance; a map without weight gives none.
    pub fn next_atom(&self, map: &PathMap<u64>) -> (r: Result<Vec<u8>, TraversalError>)
        requires
            agg_w(map, seq![]) <= u64::MAX,
        ensures
            r is Err <==> agg_w(map, seq![]) == 0,
            r matches Ok(path) ==> exists|draw: u64| #[trigger]
                sample(map, draw) == Some(path@),
    {
        let draw = random_number();
        let r = self.atom_for(map, draw);
        assert(sample(map, draw) is None <==> agg_w(map, seq![]) == 0);
        r
    }
}

} // verus!
