//! The attentional focus of a snapshot, in order.
use vstd::prelude::*;

use crate::paths::PathMap;
use crate::sweep::sti::{
    af_from, ahead, distinct_facts, in_order, indexes, lemma_push_contains, order_is_unique, put_in_order, read_max_af_size, same_facts, sti_views, Numbers,
    SnapshotStiIndex, StiCandidate, StiIndex, StiView,
};
use crate::sweep::strategy::TraversalError;

verus! {

/// A traversal that emits the facts of the attentional focus once each, the most important first.
pub struct EcanAfTopK {
    index: SnapshotStiIndex,
    remaining: Option<Vec<StiCandidate>>,
}

/// Whether a list is the attentional focus: the first `size` facts by falling value.
pub open spec fn is_focus(q: Seq<StiView>, facts: Seq<StiView>, size: nat) -> bool {
    exists|all: Seq<StiView>|
        in_order(true, all) && same_facts(all, facts) && q == #[trigger] first_of(all, size)
}

pub open spec fn first_of(all: Seq<StiView>, size: nat) -> Seq<StiView> {
    if all.len() <= size {
        all
    } else {
        all.take(size as int)
    }
}

/// What is emitted of a list, and what is left of it.
pub open spec fn emits(
    q: Seq<StiView>,
    r: Result<Vec<u8>, TraversalError>,
    left: Option<Seq<StiView>>,
) -> bool {
    match r {
        Ok(path) => q.len() > 0 && path@ == q[0].path && left == Some(q.drop_first()),
        Err(e) => q.len() == 0 && left == Some(q) && e.message@
            == "attentional focus exhausted for current snapshot"@,
    }
}

impl EcanAfTopK {
    /// What is left to emit, once the snapshot has been ranked.
    pub closed spec fn left(&self) -> Option<Seq<StiView>> {
        match self.remaining {
            Some(q) => Some(sti_views(q@)),
            None => None,
        }
    }

    pub closed spec fn cached(&self) -> Option<StiIndex> {
        self.index.cached()
    }

    pub closed spec fn rebuild_total(&self) -> u64 {
        self.index.rebuild_total()
    }

    /// A traversal that has seen no snapshot.
    pub fn new() -> (r: Self)
        ensures
            r.left() is None,
            r.cached() is None,
            r.rebuild_total() == 0,
    {
        EcanAfTopK { index: SnapshotStiIndex::new(), remaining: None }
    }

    /// The name of the engine.
    pub fn name(&self) -> (r: &'static str)
        ensures
            r@ == "ecan_af_topk"@,
    {
        "ecan_af_topk"
    }

    /// Forgets the snapshot.
    pub fn snapshot_changed(&mut self)
        ensures
            final(self).left() is None,
            final(self).cached() is None,
            final(self).rebuild_total() == old(self).rebuild_total(),
    {
        self.remaining = None;
        self.index.snapshot_changed();
    }

    /// Ranks the facts of a snapshot.
    fn rank_snapshot(&mut self, map: &PathMap<u64>, numbers: &Numbers) -> (r: Result<
        Vec<StiCandidate>,
        TraversalError,
    >)
        requires
            old(self).rebuild_total() < u64::MAX,
        ensures
            final(self).left() == old(self).left(),
            match af_from(map.paths(), numbers@, 0, None) {
                Err(m) => (r matches Err(e) && e.message@ == m) && final(self).cached() == old(
                    self,
                ).cached() && final(self).rebuild_total() == old(self).rebuild_total(),
                Ok(size) => (r matches Ok(q) && (final(self).cached() matches Some(index)
                    && is_focus(
                    sti_views(q@),
                    sti_views(index.candidates@),
                    size as nat,
                ))) && match old(self).cached() {
                    Some(index) => final(self).cached() == Some(index) && final(self).rebuild_total() == old(self).rebuild_total(),
                    None => (final(self).cached() matches Some(index) && indexes(
                        index,
                        map,
                        numbers@,
                    )) && final(self).rebuild_total() == old(self).rebuild_total() + 1,
                },
            },
    {
        let size: usize = match read_max_af_size(map, numbers) {
            Ok(n) => n,
            Err(message) => return Err(TraversalError { message }),
        };
        let index = self.index.get_or_build(map, numbers);
        let mut ranked = rank(&index.candidates);
        let ghost all = sti_views(ranked@);
        ranked.truncate(size);
        proof {
            assert(sti_views(ranked@) =~= first_of(all, size as nat));
            let kept = self.cached()->0;
            assert(same_facts(all, sti_views(kept.candidates@)));
        }
        Ok(ranked)
    }

    /// Emits the next fact. A snapshot that has not been ranked is ranked first.
    pub fn next_atom(&mut self, map: &PathMap<u64>, numbers: &Numbers) -> (r: Result<
        Vec<u8>,
        TraversalError,
    >)
        requires
            old(self).rebuild_total() < u64::MAX,
        ensures
            match old(self).left() {
                Some(q) => emits(q, r, final(self).left()) && final(self).cached() == old(
                    self,
                ).cached() && final(self).rebuild_total() == old(self).rebuild_total(),
                None => match af_from(map.paths(), numbers@, 0, None) {
                    Err(m) => (r matches Err(e) && e.message@ == m) && final(self).left() is None
                        && final(self).cached() == old(self).cached() && final(self).rebuild_total()
                        == old(self).rebuild_total(),
                    Ok(size) => (final(self).cached() matches Some(index) && (exists|
                        q: Seq<StiView>,
                    |
                        #![trigger first_of(q, size as nat)]
                        is_focus(q, sti_views(index.candidates@), size as nat) && emits(
                            q,
                            r,
                            final(self).left(),
                        ))) && match old(self).cached() {
                        Some(index) => final(self).cached() == Some(index) && final(
                            self).rebuild_total() == old(self).rebuild_total(),
                        None => (final(self).cached() matches Some(index) && indexes(
                            index,
                            map,
                            numbers@,
                        )) && final(self).rebuild_total() == old(self).rebuild_total() + 1,
                    },
                },
            },
    {
        if self.remaining.is_none() {
            match self.rank_snapshot(map, numbers) {
                Ok(q) => {
                    self.remaining = Some(q);
                },
                Err(e) => return Err(e),
            }
        }
        let ghost size = match af_from(map.paths(), numbers@, 0, None) {
            Ok(n) => n as nat,
            Err(_) => 0,
        };
        let ghost q0 = self.left()->0;
        assert(first_of(q0, size) == first_of(q0, size));
        let mut taken: Option<Vec<StiCandidate>> = None;
        std::mem::swap(&mut taken, &mut self.remaining);
        match taken {
            None => Err(TraversalError { message: String::new() }),
            Some(mut q) => {
                if q.len() == 0 {
                    self.remaining = Some(q);
                    return Err(
                        TraversalError {
                            message: "attentional focus exhausted for current snapshot".to_owned(),
                        },
                    );
                }
                let first = q.remove(0);
                assert(sti_views(q@) =~= q0.drop_first());
                self.remaining = Some(q);
                Ok(first.path)
            },
        }
    }
}

/// The attentional focus holds facts only, at most `size` of them, the most important first; and
/// a fact is left out only where the focus is full, and then it comes after all that are in it.
pub proof fn focus_is_exact(q: Seq<StiView>, facts: Seq<StiView>, size: nat)
    requires
        is_focus(q, facts, size),
    ensures
        q.len() <= size,
        in_order(true, q),
        forall|c: StiView| #[trigger] q.contains(c) ==> facts.contains(c),
        forall|c: StiView, i: int|
            facts.contains(c) && !q.contains(c) && 0 <= i < q.len() ==> ahead(
                true,
                #[trigger] q[i],
                c,
            ) && #[trigger] facts.contains(c),
        forall|c: StiView| #[trigger] facts.contains(c) && !q.contains(c) ==> q.len() == size,
{
    let all = choose|all: Seq<StiView>|
        in_order(true, all) && same_facts(all, facts) && q == #[trigger] first_of(all, size);
    assert forall|c: StiView| #[trigger] q.contains(c) implies facts.contains(c) by {
        let k = choose|k: int| 0 <= k < q.len() && q[k] == c;
        assert(all[k] == c);
        assert(all.contains(c));
    }
    assert forall|c: StiView| #[trigger] facts.contains(c) && !q.contains(c) implies q.len() == size
        && exists|k: int| q.len() <= k < all.len() && all[k] == c by {
        assert(all.contains(c));
        let k = choose|k: int| 0 <= k < all.len() && all[k] == c;
        if k < q.len() {
            assert(q[k] == c);
        }
    }
}

/// Whether the `k`-th of some calls emits from what is left before it.
pub open spec fn call_emits(
    left: Seq<Option<Seq<StiView>>>,
    results: Seq<Result<Vec<u8>, TraversalError>>,
    k: int,
) -> bool {
    left[k] is Some && emits(left[k]->0, results[k], left[k + 1])
}

/// Calls in a row emit the focus in turn, each fact once, and fail from its end on: `left[i]` is
/// what is left before the `i`-th call, and `results[i]` is what it returns.
pub proof fn focus_comes_out_in_turn(
    q: Seq<StiView>,
    left: Seq<Option<Seq<StiView>>>,
    results: Seq<Result<Vec<u8>, TraversalError>>,
    i: int,
)
    requires
        left.len() == results.len() + 1,
        left[0] == Some(q),
        forall|k: int| 0 <= k < results.len() ==> #[trigger] call_emits(left, results, k),
        0 <= i < results.len(),
    ensures
        if i < q.len() {
            results[i] matches Ok(path) && path@ == q[i].path
        } else {
            results[i] is Err
        },
        left[i + 1] == Some(q.skip(if i + 1 < q.len() {
            i + 1
        } else {
            q.len() as int
        })),
    decreases i,
{
    assert(call_emits(left, results, i));
    if i > 0 {
        focus_comes_out_in_turn(q, left, results, i - 1);
    } else {
        assert(q.skip(0) =~= q);
    }
    let at = if i < q.len() {
        i
    } else {
        q.len() as int
    };
    let now = q.skip(at);
    assert(left[i] == Some(now));
    if i < q.len() {
        assert(now.drop_first() =~= q.skip(i + 1));
    }
}

/// There is only one attentional focus of given facts.
pub proof fn focus_is_unique(q: Seq<StiView>, r: Seq<StiView>, facts: Seq<StiView>, size: nat)
    requires
        is_focus(q, facts, size),
        is_focus(r, facts, size),
    ensures
        q == r,
{
    let a = choose|all: Seq<StiView>|
        in_order(true, all) && same_facts(all, facts) && q == #[trigger] first_of(all, size);
    let b = choose|all: Seq<StiView>|
        in_order(true, all) && same_facts(all, facts) && r == #[trigger] first_of(all, size);
    assert(same_facts(a, b)) by {
        assert forall|c: StiView| #[trigger] a.contains(c) <==> b.contains(c) by {
            assert(b.contains(c) <==> facts.contains(c));
        }
    }
    order_is_unique(true, a, b);
}

/// The facts by falling value.
fn rank(cs: &Vec<StiCandidate>) -> (r: Vec<StiCandidate>)
    requires
        distinct_facts(sti_views(cs@)),
    ensures
        in_order(true, sti_views(r@)),
        same_facts(sti_views(r@), sti_views(cs@)),
{
    let ghost view = sti_views(cs@);
    let mut r: Vec<StiCandidate> = Vec::new();
    let mut i: usize = 0;
    assert(sti_views(r@) =~= view.take(0));
    while i < cs.len()
        invariant
            i <= cs@.len(),
            view == sti_views(cs@),
            distinct_facts(view),
            r@.len() == i,
            in_order(true, sti_views(r@)),
            same_facts(sti_views(r@), view.take(i as int)),
        decreases cs@.len() - i,
    {
        let c = cs[i].copy();
        proof {
            assert(view[i as int] == c@);
            assert forall|k: int| 0 <= k < r@.len() implies (#[trigger] r@[k])@.path != c@.path by {
                let x = sti_views(r@)[k];
                assert(sti_views(r@).contains(x));
                let j = view.take(i as int).index_of(x);
                assert(view[j] == x);
            }
        }
        let ghost before = view.take(i as int);
        let ghost added = c@;
        put_in_order(&mut r, c, true);
        i = i + 1;
        proof {
            assert(view.take(i as int) =~= before.push(added));
            assert forall|x: StiView| #[trigger] sti_views(r@).contains(x) <==> view.take(
                i as int,
            ).contains(x) by {
                lemma_push_contains(before, added, x);
            }
        }
    }
    assert(view.take(i as int) =~= view);
    r
}

} // verus!
