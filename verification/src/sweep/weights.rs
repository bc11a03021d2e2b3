//! Aggregate weights: the sum of the weights at and below a position.
use vstd::prelude::*;

use crate::bytes::{has_prefix, starts_with};
use crate::paths::PathMap;
use crate::sweep::strategy::TraversalError;

verus! {

/// The sum of the weights of those of the listed paths that start with a prefix.
pub open spec fn weight_below(m: Map<Seq<u8>, u64>, ps: Seq<Seq<u8>>, prefix: Seq<u8>) -> nat
    decreases ps.len(),
{
    if ps.len() == 0 {
        0
    } else {
        weight_below(m, ps.drop_last(), prefix) + if starts_with(ps.last(), prefix) {
            m[ps.last()] as nat
        } else {
            0
        }
    }
}

/// The aggregate weight of a map at a position.
pub open spec fn agg_w(map: &PathMap<u64>, prefix: Seq<u8>) -> nat {
    weight_below(map@, map.paths(), prefix)
}

/// Aggregates the weights at and below a position. The sum has to fit.
pub fn node_agg_w(map: &PathMap<u64>, prefix: &[u8]) -> (r: Result<u64, TraversalError>)
    requires
        agg_w(map, prefix@) <= u64::MAX,
    ensures
        r matches Ok(w) && w == agg_w(map, prefix@),
{
    let ghost ps = map.paths();
    let mut sum: u64 = 0;
    let mut i: usize = 0;
    while i < map.val_count()
        invariant
            i <= ps.len(),
            ps == map.paths(),
            agg_w(map, prefix@) <= u64::MAX,
            sum == weight_below(map@, ps.take(i as int), prefix@),
        decreases ps.len() - i,
    {
        proof {
            assert(ps.take(i + 1).drop_last() =~= ps.take(i as int));
            lemma_weight_take(map@, ps, prefix@, i + 1);
        }
        let (path, w) = map.entry(i);
        if has_prefix(path.as_slice(), prefix) {
            sum = sum + w;
        }
        i = i + 1;
    }
    assert(ps.take(i as int) =~= ps);
    Ok(sum)
}

pub proof fn lemma_weight_take(m: Map<Seq<u8>, u64>, ps: Seq<Seq<u8>>, prefix: Seq<u8>, n: int)
    requires
        0 <= n <= ps.len(),
    ensures
        weight_below(m, ps.take(n), prefix) <= weight_below(m, ps, prefix),
    decreases ps.len() - n,
{
    if n == ps.len() {
        assert(ps.take(n) =~= ps);
    } else {
        lemma_weight_take(m, ps, prefix, n + 1);
        assert(ps.take(n + 1).drop_last() =~= ps.take(n));
    }
}

/// Below a longer prefix there is no more weight than below a shorter one.
pub proof fn weight_shrinks_with_depth(
    m: Map<Seq<u8>, u64>,
    ps: Seq<Seq<u8>>,
    prefix: Seq<u8>,
    longer: Seq<u8>,
)
    requires
        starts_with(longer, prefix),
    ensures
        weight_below(m, ps, longer) <= weight_below(m, ps, prefix),
    decreases ps.len(),
{
    if ps.len() > 0 {
        weight_shrinks_with_depth(m, ps.drop_last(), prefix, longer);
        if starts_with(ps.last(), longer) {
            assert(ps.last().take(prefix.len() as int) =~= longer.take(prefix.len() as int));
            assert(starts_with(ps.last(), prefix));
        }
    }
}

/// The aggregate weights of the first `n` children of a position.
pub open spec fn children_weight(
    m: Map<Seq<u8>, u64>,
    ps: Seq<Seq<u8>>,
    prefix: Seq<u8>,
    n: nat,
) -> nat
    decreases n,
{
    if n == 0 {
        0
    } else {
        children_weight(m, ps, prefix, (n - 1) as nat) + weight_below(
            m,
            ps,
            prefix.push((n - 1) as u8),
        )
    }
}

/// The weight of those of the listed paths that are the position itself.
pub open spec fn own_weight(m: Map<Seq<u8>, u64>, ps: Seq<Seq<u8>>, at: Seq<u8>) -> nat
    decreases ps.len(),
{
    if ps.len() == 0 {
        0
    } else {
        own_weight(m, ps.drop_last(), at) + if ps.last() == at {
            m[ps.last()] as nat
        } else {
            0
        }
    }
}

/// The aggregate weight of a position is its own weight and the aggregate weights of its children.
pub proof fn aggregate_is_own_and_children(m: Map<Seq<u8>, u64>, ps: Seq<Seq<u8>>, at: Seq<u8>)
    ensures
        weight_below(m, ps, at) == own_weight(m, ps, at) + children_weight(m, ps, at, 256),
    decreases ps.len(),
{
    if ps.len() == 0 {
        lemma_no_children(m, ps, at, 256);
    } else {
        aggregate_is_own_and_children(m, ps.drop_last(), at);
        lemma_children_last(m, ps, at, 256);
        let p = ps.last();
        if starts_with(p, at) && p != at {
            if p.len() == at.len() {
                assert(p.take(at.len() as int) =~= p);
            }
        }
        if p == at {
            assert(p.take(at.len() as int) =~= at);
        }
    }
}

proof fn lemma_no_children(m: Map<Seq<u8>, u64>, ps: Seq<Seq<u8>>, at: Seq<u8>, n: nat)
    requires
        ps.len() == 0,
    ensures
        children_weight(m, ps, at, n) == 0,
    decreases n,
{
    if n > 0 {
        lemma_no_children(m, ps, at, (n - 1) as nat);
    }
}

/// A listed path adds its weight to at most one child.
proof fn lemma_children_last(m: Map<Seq<u8>, u64>, ps: Seq<Seq<u8>>, at: Seq<u8>, n: nat)
    requires
        ps.len() > 0,
        n <= 256,
    ensures
        children_weight(m, ps, at, n) == children_weight(m, ps.drop_last(), at, n) + if starts_with(
            ps.last(),
            at,
        ) && ps.last().len() > at.len() && ps.last()[at.len() as int] < n {
            m[ps.last()] as nat
        } else {
            0
        },
    decreases n,
{
    if n > 0 {
        lemma_children_last(m, ps, at, (n - 1) as nat);
        let b = (n - 1) as u8;
        let p = ps.last();
        let child = at.push(b);
        if starts_with(p, child) {
            assert(p.take(child.len() as int)[at.len() as int] == b);
            assert(p.take(at.len() as int) =~= child.take(at.len() as int));
            assert(child.take(at.len() as int) =~= at);
        } else if starts_with(p, at) && p.len() > at.len() && p[at.len() as int] == b {
            assert(p.take(child.len() as int) =~= p.take(at.len() as int).push(b));
        }
    }
}

/// Replacing the weight of a listed path changes the aggregate weight of every position on the
/// way to it by the difference, and no other.
pub proof fn weight_change_moves_up(
    m: Map<Seq<u8>, u64>,
    ps: Seq<Seq<u8>>,
    at: Seq<u8>,
    w: u64,
    prefix: Seq<u8>,
)
    requires
        ps.no_duplicates(),
        ps.contains(at),
    ensures
        weight_below(m.insert(at, w), ps, prefix) - weight_below(m, ps, prefix) == if starts_with(
            at,
            prefix,
        ) {
            w - m[at]
        } else {
            0
        },
    decreases ps.len(),
{
    let front = ps.drop_last();
    if ps.last() == at {
        assert(!front.contains(at));
        lemma_weight_elsewhere(m, front, at, w, prefix);
    } else {
        let i = ps.index_of(at);
        assert(front[i] == at);
        weight_change_moves_up(m, front, at, w, prefix);
    }
}

proof fn lemma_weight_elsewhere(
    m: Map<Seq<u8>, u64>,
    ps: Seq<Seq<u8>>,
    at: Seq<u8>,
    w: u64,
    prefix: Seq<u8>,
)
    requires
        !ps.contains(at),
    ensures
        weight_below(m.insert(at, w), ps, prefix) == weight_below(m, ps, prefix),
    decreases ps.len(),
{
    if ps.len() > 0 {
        assert(ps.contains(ps.last()));
        assert(!ps.drop_last().contains(at)) by {
            if ps.drop_last().contains(at) {
                let i = ps.drop_last().index_of(at);
                assert(ps[i] == at);
            }
        }
        lemma_weight_elsewhere(m, ps.drop_last(), at, w, prefix);
    }
}

/// A map of weighted atoms.
pub struct WeightedMap {
    pub inner: PathMap<u64>,
}

impl WeightedMap {
    /// The weight stored at a path.
    pub fn get_val(&self, path: &[u8]) -> (r: Option<u64>)
        ensures
            match r {
                Some(w) => self.inner@.contains_key(path@) && self.inner@[path@] == w,
                None => !self.inner@.contains_key(path@),
            },
    {
        self.inner.get(path)
    }

    /// Sets the weight at a path. Nobody else holds the map, so this never fails.
    pub fn set_weighted_val(&mut self, path: &[u8], val: u64) -> (r: Result<(), ()>)
        ensures
            r is Ok,
            final(self).inner@ == old(self).inner@.insert(path@, val),
    {
        let _ = self.inner.insert(path, val);
        Ok(())
    }
}

} // verus!
