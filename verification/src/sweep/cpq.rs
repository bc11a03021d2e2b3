//! A traversal that serves chunks of the trie, the heaviest first.
use vstd::prelude::*;

use crate::bytes::starts_with;
use crate::paths::{copy_path, path_lt, PathMap};
use crate::sweep::strategy::TraversalError;
use crate::sweep::weights::{agg_w, lemma_weight_take, weight_below, weight_shrinks_with_depth};

verus! {

/// The chunks at a depth: every prefix of that many bytes of a path, with its aggregate weight.
/// There are none at depth zero.
pub open spec fn chunks_of(
    m: Map<Seq<u8>, u64>,
    ps: Seq<Seq<u8>>,
    depth: nat,
) -> Map<Seq<u8>, nat> {
    Map::new(|c: Seq<u8>| is_chunk(ps, depth, c), |c: Seq<u8>| weight_below(m, ps, c))
}

pub open spec fn is_chunk(ps: Seq<Seq<u8>>, depth: nat, c: Seq<u8>) -> bool {
    &&& depth > 0
    &&& c.len() == depth
    &&& exists|i: int| 0 <= i < ps.len() && #[trigger] starts_with(ps[i], c)
}

/// Whether one chunk is served before another: the heavier one, or the one that comes first in
/// order.
pub open spec fn served_before(h: Map<Seq<u8>, nat>, p: Seq<u8>, q: Seq<u8>) -> bool {
    h[p] > h[q] || (h[p] == h[q] && path_lt(p, q))
}

/// Whether a chunk is the one to serve next.
pub open spec fn served_next(h: Map<Seq<u8>, nat>, p: Seq<u8>) -> bool {
    &&& h.contains_key(p)
    &&& forall|q: Seq<u8>| #[trigger] h.contains_key(q) && q != p ==> served_before(h, p, q)
}

/// A chunked priority queue: chunks at a fixed depth, scored by their aggregate weight.
pub struct ChunkedPQTraverse {
    heap: PathMap<u64>,
    depth: usize,
}

impl ChunkedPQTraverse {
    /// The chunks that are left to serve.
    pub closed spec fn chunks(&self) -> Map<Seq<u8>, nat> {
        self.heap@.map_values(|w: u64| w as nat)
    }

    pub closed spec fn chunk_depth(&self) -> usize {
        self.depth
    }

    /// A traversal with chunks at a depth; none is collected yet.
    pub fn new(depth: usize) -> (r: Self)
        ensures
            r.chunks() == Map::<Seq<u8>, nat>::empty(),
            r.chunk_depth() == depth,
    {
        let r = ChunkedPQTraverse { heap: PathMap::new(), depth };
        assert(r.chunks() =~= Map::<Seq<u8>, nat>::empty());
        r
    }

    /// The name of the engine.
    pub fn name(&self) -> (r: &'static str)
        ensures
            r@ == "pq"@,
    {
        "pq"
    }

    /// Forgets the chunks, and collects those of a map.
    pub fn refresh(&mut self, map: &PathMap<u64>)
        requires
            agg_w(map, seq![]) <= u64::MAX,
        ensures
            final(self).chunks() == chunks_of(map@, map.paths(), old(self).chunk_depth() as nat),
            final(self).chunk_depth() == old(self).chunk_depth(),
    {
        self.heap = collect_atoms_at_depth(map, self.depth);
    }

    /// Forgets the chunks: they belong to an old snapshot.
    pub fn snapshot_changed(&mut self)
        ensures
            final(self).chunks() == Map::<Seq<u8>, nat>::empty(),
            final(self).chunk_depth() == old(self).chunk_depth(),
    {
        self.heap = PathMap::new();
        assert(self.chunks() =~= Map::<Seq<u8>, nat>::empty());
    }

    /// Serves the next chunk. Where none are left, those of the map are collected first.
    pub fn next_atom(&mut self, map: &PathMap<u64>) -> (r: Result<Vec<u8>, TraversalError>)
        requires
            agg_w(map, seq![]) <= u64::MAX,
        ensures
            ({
                let h = if old(self).chunks() == Map::<Seq<u8>, nat>::empty() {
                    chunks_of(map@, map.paths(), old(self).chunk_depth() as nat)
                } else {
                    old(self).chunks()
                };
                match r {
                    Ok(p) => served_next(h, p@) && final(self).chunks() == h.remove(p@),
                    Err(e) => h == Map::<Seq<u8>, nat>::empty() && final(self).chunks() == h
                        && e.message@ == "Trie is empty or has no atoms at specified depth"@,
                }
            }),
            final(self).chunk_depth() == old(self).chunk_depth(),
    {
        if self.heap.is_empty() {
            assert(self.chunks() =~= Map::<Seq<u8>, nat>::empty());
            self.heap = collect_atoms_at_depth(map, self.depth);
        } else {
            proof {
                let p = choose|p: Seq<u8>| self.heap@.contains_key(p);
                if !self.heap@.contains_key(p) {
                    assert(self.heap@ =~= Map::<Seq<u8>, u64>::empty());
                }
                assert(self.chunks().contains_key(p));
            }
        }
        if self.heap.is_empty() {
            assert(self.chunks() =~= Map::<Seq<u8>, nat>::empty());
            return Err(
                TraversalError {
                    message: "Trie is empty or has no atoms at specified depth".to_owned(),
                },
            );
        }
        let ghost h = self.chunks();
        let best = heaviest(&self.heap);
        let _ = self.heap.remove(best.as_slice());
        assert(self.chunks() =~= h.remove(best@));
        Ok(best)
    }
}

/// The chunk to serve next.
fn heaviest(heap: &PathMap<u64>) -> (r: Vec<u8>)
    requires
        heap.paths().len() > 0,
    ensures
        served_next(heap@.map_values(|w: u64| w as nat), r@),
{
    let ghost h = heap@.map_values(|w: u64| w as nat);
    let ghost ps = heap.paths();
    let (first, w0) = heap.entry(0);
    let mut best: Vec<u8> = copy_path(first);
    let mut score: u64 = w0;
    let mut i: usize = 1;
    while i < heap.val_count()
        invariant
            1 <= i <= ps.len(),
            ps == heap.paths(),
            h == heap@.map_values(|w: u64| w as nat),
            heap@.contains_key(best@),
            heap@[best@] == score,
            forall|k: int|
                0 <= k < i && #[trigger] ps[k] != best@ ==> served_before(h, best@, ps[k]),
            exists|k: int| 0 <= k < i && #[trigger] ps[k] == best@,
        decreases ps.len() - i,
    {
        let (path, w) = heap.entry(i);
        proof {
            use_type_invariant(heap);
            heap.lemma_paths();
        }
        if w > score {
            let ghost was = best@;
            best = copy_path(path);
            score = w;
            proof {
                assert forall|k: int| 0 <= k < i + 1 && #[trigger] ps[k] != best@ implies served_before(
                    h,
                    best@,
                    ps[k],
                ) by {
                    assert(ps[k] == was || served_before(h, was, ps[k]));
                }
                assert(ps[i as int] == best@);
            }
        } else {
            proof {
                let b = choose|k: int| 0 <= k < i && #[trigger] ps[k] == best@;
                assert(path_lt(ps[b], ps[i as int]));
            }
        }
        i = i + 1;
    }
    proof {
        use_type_invariant(heap);
        heap.lemma_paths();
        assert forall|q: Seq<u8>| #[trigger] h.contains_key(q) && q != best@ implies served_before(
            h,
            best@,
            q,
        ) by {
            assert(ps.contains(q));
            let k = choose|k: int| 0 <= k < ps.len() && ps[k] == q;
            assert(ps[k] != best@);
        }
    }
    best
}

/// The chunks of a map at a depth.
fn collect_atoms_at_depth(map: &PathMap<u64>, depth: usize) -> (r: PathMap<u64>)
    requires
        agg_w(map, seq![]) <= u64::MAX,
    ensures
        r@.map_values(|w: u64| w as nat) == chunks_of(map@, map.paths(), depth as nat),
{
    let mut heap: PathMap<u64> = PathMap::new();
    let ghost ps = map.paths();
    if depth == 0 {
        assert(heap@.map_values(|w: u64| w as nat) =~= chunks_of(map@, ps, 0));
        return heap;
    }
    let mut i: usize = 0;
    assert(heap@.map_values(|w: u64| w as nat) =~= chunks_of(map@, ps.take(0), depth as nat));
    while i < map.val_count()
        invariant
            i <= ps.len(),
            ps == map.paths(),
            depth > 0,
            agg_w(map, seq![]) <= u64::MAX,
            heap@.map_values(|w: u64| w as nat) == chunks_of(
                map@,
                ps.take(i as int),
                depth as nat,
            ),
        decreases ps.len() - i,
    {
        let ghost before = heap@.map_values(|w: u64| w as nat);
        let (path, w) = map.entry(i);
        if path.len() >= depth {
            let chunk = vstd::slice::slice_subrange(path.as_slice(), 0, depth);
            proof {
                assert(chunk@ =~= ps[i as int].take(depth as int));
                lemma_chunk_step(map@, ps, depth as nat, i as int);
                lemma_weight_take(map@, ps, chunk@, i + 1);
                assert(chunk@.take(0) =~= seq![]);
                weight_shrinks_with_depth(map@, ps, seq![], chunk@);
            }
            let had: u64 = match heap.get(chunk) {
                Some(s) => {
                    assert(before.contains_key(chunk@) && before[chunk@] == s);
                    s
                },
                None => {
                    assert(!before.contains_key(chunk@));
                    0
                },
            };
            let _ = heap.insert(chunk, had + w);
            assert(heap@.map_values(|w: u64| w as nat) =~= chunks_of(
                map@,
                ps.take(i + 1),
                depth as nat,
            ));
        } else {
            proof {
                lemma_chunk_step(map@, ps, depth as nat, i as int);
            }
            assert(heap@.map_values(|w: u64| w as nat) =~= chunks_of(
                map@,
                ps.take(i + 1),
                depth as nat,
            ));
        }
        i = i + 1;
    }
    assert(ps.take(i as int) =~= ps);
    heap
}

/// One more path adds its weight to its chunk, if it is long enough to have one.
proof fn lemma_chunk_step(m: Map<Seq<u8>, u64>, ps: Seq<Seq<u8>>, depth: nat, i: int)
    requires
        0 <= i < ps.len(),
        depth > 0,
    ensures
        ({
            let a = chunks_of(m, ps.take(i), depth);
            let b = chunks_of(m, ps.take(i + 1), depth);
            let c = ps[i].take(depth as int);
            if ps[i].len() >= depth {
                &&& b == a.insert(
                    c,
                    (if a.contains_key(c) {
                        a[c]
                    } else {
                        0
                    }) + m[ps[i]] as nat,
                )
                &&& b[c] == weight_below(m, ps.take(i + 1), c)
            } else {
                b == a
            }
        }),
{
    let s0 = ps.take(i);
    let s1 = ps.take(i + 1);
    let a = chunks_of(m, s0, depth);
    let b = chunks_of(m, s1, depth);
    let p = ps[i];
    let c = p.take(depth as int);
    assert(s1.drop_last() =~= s0);
    assert(s1.last() == p);
    assert forall|q: Seq<u8>| #[trigger]
        is_chunk(s1, depth, q) <==> is_chunk(s0, depth, q) || (q.len() == depth && starts_with(
            p,
            q,
        )) by {
        if is_chunk(s0, depth, q) {
            let k = choose|k: int| 0 <= k < s0.len() && #[trigger] starts_with(s0[k], q);
            assert(starts_with(s1[k], q));
        }
        if q.len() == depth && starts_with(p, q) {
            assert(starts_with(s1[i], q));
        }
        if is_chunk(s1, depth, q) {
            let k = choose|k: int| 0 <= k < s1.len() && #[trigger] starts_with(s1[k], q);
            if k < i {
                assert(starts_with(s0[k], q));
            }
        }
    }
    assert forall|q: Seq<u8>| q.len() == depth && p.len() >= depth implies (starts_with(p, q) <==> q
        == c) by {}
    if p.len() >= depth {
        if !a.contains_key(c) {
            lemma_no_weight(m, s0, c);
        }
        assert(b =~= a.insert(
            c,
            (if a.contains_key(c) {
                a[c]
            } else {
                0
            }) + m[p] as nat,
        ));
    } else {
        assert(b =~= a);
    }
}

proof fn lemma_no_weight(m: Map<Seq<u8>, u64>, ps: Seq<Seq<u8>>, c: Seq<u8>)
    requires
        forall|i: int| 0 <= i < ps.len() ==> !#[trigger] starts_with(ps[i], c),
    ensures
        weight_below(m, ps, c) == 0,
    decreases ps.len(),
{
    if ps.len() > 0 {
        assert(!starts_with(ps[ps.len() - 1], c));
        assert forall|i: int| 0 <= i < ps.drop_last().len() implies !#[trigger] starts_with(
            ps.drop_last()[i],
            c,
        ) by {
            assert(!starts_with(ps[i], c));
        }
        lemma_no_weight(m, ps.drop_last(), c);
    }
}

/// Chunks come heaviest first: the next one is never heavier than the one before.
pub proof fn heavier_chunks_come_first(h: Map<Seq<u8>, nat>, p: Seq<u8>, q: Seq<u8>)
    requires
        served_next(h, p),
        served_next(h.remove(p), q),
    ensures
        p != q,
        h[p] >= h[q],
        served_before(h, p, q),
{
    assert(h.remove(p).contains_key(q));
    assert(h.contains_key(q));
}

} // verus!
