//! A map from byte paths to values, ordered by path.
use vstd::prelude::*;

use crate::bytes::{has_prefix, starts_with};

verus! {

/// The order of paths: byte by byte, a prefix before what it is a prefix of.
pub open spec fn path_lt(a: Seq<u8>, b: Seq<u8>) -> bool
    decreases a.len(),
{
    if b.len() == 0 {
        false
    } else if a.len() == 0 {
        true
    } else if a[0] != b[0] {
        a[0] < b[0]
    } else {
        path_lt(a.drop_first(), b.drop_first())
    }
}

/// No path comes before itself.
pub proof fn path_lt_irreflexive(a: Seq<u8>)
    ensures
        !path_lt(a, a),
    decreases a.len(),
{
    if a.len() > 0 {
        path_lt_irreflexive(a.drop_first());
    }
}

/// The order of paths is transitive.
pub proof fn path_lt_transitive(a: Seq<u8>, b: Seq<u8>, c: Seq<u8>)
    requires
        path_lt(a, b),
        path_lt(b, c),
    ensures
        path_lt(a, c),
    decreases a.len(),
{
    if a.len() > 0 && a[0] == b[0] && b[0] == c[0] {
        path_lt_transitive(a.drop_first(), b.drop_first(), c.drop_first());
    }
}

/// Of two different paths one comes first.
pub proof fn path_lt_total(a: Seq<u8>, b: Seq<u8>)
    ensures
        path_lt(a, b) || path_lt(b, a) || a == b,
    decreases a.len(),
{
    if a.len() > 0 && b.len() > 0 && a[0] == b[0] {
        path_lt_total(a.drop_first(), b.drop_first());
        if a.drop_first() == b.drop_first() {
            assert(a =~= seq![a[0]] + a.drop_first());
            assert(b =~= seq![b[0]] + b.drop_first());
        }
    } else if a.len() == 0 && b.len() == 0 {
        assert(a =~= b);
    }
}

/// How two paths compare.
#[derive(Clone, Copy, Debug, PartialEq, Eq, Structural)]
pub enum PathOrder {
    Before,
    Same,
    After,
}

/// Compares two paths.
pub fn compare_paths(a: &[u8], b: &[u8]) -> (r: PathOrder)
    ensures
        match r {
            PathOrder::Before => path_lt(a@, b@),
            PathOrder::Same => a@ == b@,
            PathOrder::After => path_lt(b@, a@),
        },
{
    let mut i: usize = 0;
    assert(a@.skip(0) =~= a@);
    assert(b@.skip(0) =~= b@);
    while i < a.len() && i < b.len()
        invariant
            i <= a@.len(),
            i <= b@.len(),
            path_lt(a@, b@) == path_lt(a@.skip(i as int), b@.skip(i as int)),
            path_lt(b@, a@) == path_lt(b@.skip(i as int), a@.skip(i as int)),
            a@.take(i as int) == b@.take(i as int),
        decreases a@.len() - i,
    {
        let ghost x = a@.skip(i as int);
        let ghost y = b@.skip(i as int);
        assert(x.drop_first() =~= a@.skip(i + 1));
        assert(y.drop_first() =~= b@.skip(i + 1));
        if a[i] < b[i] {
            return PathOrder::Before;
        }
        if a[i] > b[i] {
            return PathOrder::After;
        }
        assert(a@.take(i + 1) =~= a@.take(i as int).push(a@[i as int]));
        assert(b@.take(i + 1) =~= b@.take(i as int).push(b@[i as int]));
        i = i + 1;
    }
    if i < b.len() {
        PathOrder::Before
    } else if i < a.len() {
        PathOrder::After
    } else {
        assert(a@ =~= a@.take(i as int));
        assert(b@ =~= b@.take(i as int));
        PathOrder::Same
    }
}

/// The value of a path in a map that is used as a set.
#[derive(Clone, Copy, Debug, PartialEq, Eq, Structural)]
pub struct Present;

/// A map from byte paths to values.
pub struct PathMap<V: Copy> {
    entries: Vec<(Vec<u8>, V)>,
}

pub open spec fn paths_of<V>(es: Seq<(Vec<u8>, V)>) -> Seq<Seq<u8>> {
    es.map_values(|e: (Vec<u8>, V)| e.0@)
}

pub open spec fn entries_map<V>(es: Seq<(Vec<u8>, V)>) -> Map<Seq<u8>, V> {
    Map::new(
        |p: Seq<u8>| paths_of(es).contains(p),
        |p: Seq<u8>| es[paths_of(es).index_of(p)].1,
    )
}

pub open spec fn sorted_entries<V>(es: Seq<(Vec<u8>, V)>) -> bool {
    forall|i: int, j: int|
        0 <= i < j < es.len() ==> path_lt((#[trigger] es[i]).0@, (#[trigger] es[j]).0@)
}

proof fn lemma_entry<V>(es: Seq<(Vec<u8>, V)>, i: int)
    requires
        sorted_entries(es),
        0 <= i < es.len(),
    ensures
        entries_map(es).contains_key(es[i].0@),
        entries_map(es)[es[i].0@] == es[i].1,
{
    let ps = paths_of(es);
    assert(ps[i] == es[i].0@);
    let k = ps.index_of(es[i].0@);
    assert(0 <= k < ps.len() && ps[k] == es[i].0@);
    path_lt_irreflexive(es[i].0@);
    assert(es[k].0@ == es[i].0@);
    if k < i {
        assert(path_lt(es[k].0@, es[i].0@));
    } else if i < k {
        assert(path_lt(es[i].0@, es[k].0@));
    }
}

/// The position of a path that is in the map.
proof fn lemma_position<V>(es: Seq<(Vec<u8>, V)>, p: Seq<u8>) -> (i: int)
    requires
        entries_map(es).contains_key(p),
    ensures
        0 <= i < es.len(),
        es[i].0@ == p,
{
    let ps = paths_of(es);
    let i = choose|i: int| 0 <= i < ps.len() && ps[i] == p;
    assert(ps[i] == es[i].0@);
    i
}

proof fn lemma_no_entry<V>(es: Seq<(Vec<u8>, V)>, p: Seq<u8>)
    requires
        forall|i: int| 0 <= i < es.len() ==> (#[trigger] es[i]).0@ != p,
    ensures
        !entries_map(es).contains_key(p),
{
    if entries_map(es).contains_key(p) {
        let i = lemma_position(es, p);
    }
}

/// Maps of entries are equal when they have the same paths with the same values.
proof fn lemma_same_map<V>(es: Seq<(Vec<u8>, V)>, m: Map<Seq<u8>, V>)
    requires
        sorted_entries(es),
        forall|i: int|
            0 <= i < es.len() ==> m.contains_key((#[trigger] es[i]).0@) && m[es[i].0@] == es[i].1,
        forall|p: Seq<u8>| #[trigger]
            m.contains_key(p) ==> exists|i: int| 0 <= i < es.len() && (#[trigger] es[i]).0@ == p,
    ensures
        entries_map(es) == m,
{
    let e = entries_map(es);
    assert forall|p: Seq<u8>| e.contains_key(p) <==> m.contains_key(p) by {
        if e.contains_key(p) {
            let i = lemma_position(es, p);
        }
        if m.contains_key(p) {
            let i = choose|i: int| 0 <= i < es.len() && (#[trigger] es[i]).0@ == p;
            lemma_entry(es, i);
        }
    }
    assert forall|p: Seq<u8>| #[trigger] e.contains_key(p) implies e[p] == m[p] by {
        let i = lemma_position(es, p);
        lemma_entry(es, i);
    }
    assert(e =~= m);
}

proof fn lemma_take_contains(ps: Seq<Seq<u8>>, i: int)
    requires
        0 <= i < ps.len(),
    ensures
        forall|p: Seq<u8>| #[trigger]
            ps.take(i + 1).contains(p) <==> ps.take(i).contains(p) || p == ps[i],
{
    let s0 = ps.take(i);
    let s1 = ps.take(i + 1);
    assert forall|p: Seq<u8>| #[trigger] s1.contains(p) <==> s0.contains(p) || p == ps[i] by {
        if s0.contains(p) {
            let k = choose|k: int| 0 <= k < s0.len() && s0[k] == p;
            assert(s1[k] == p);
        }
        if p == ps[i] {
            assert(s1[i] == p);
        }
        if s1.contains(p) && p != ps[i] {
            let k = choose|k: int| 0 <= k < s1.len() && s1[k] == p;
            assert(s0[k] == p);
        }
    }
}

/// A copy of a path.
pub fn copy_path(p: &Vec<u8>) -> (r: Vec<u8>)
    ensures
        r@ == p@,
{
    vstd::slice::slice_to_vec(p.as_slice())
}

impl<V: Copy> PathMap<V> {
    #[verifier::type_invariant]
    pub closed spec fn well_formed(self) -> bool {
        sorted_entries(self.entries@)
    }

    pub closed spec fn view(&self) -> Map<Seq<u8>, V> {
        entries_map(self.entries@)
    }

    /// The paths in order.
    pub closed spec fn paths(&self) -> Seq<Seq<u8>> {
        paths_of(self.entries@)
    }

    /// The empty map.
    pub fn new() -> (r: Self)
        ensures
            r@ == Map::<Seq<u8>, V>::empty(),
            r.paths() == Seq::<Seq<u8>>::empty(),
    {
        let r = PathMap { entries: Vec::new() };
        assert(r@ =~= Map::<Seq<u8>, V>::empty());
        assert(r.paths() =~= Seq::<Seq<u8>>::empty());
        r
    }

    /// The number of paths.
    pub fn val_count(&self) -> (r: usize)
        ensures
            r == self.paths().len(),
    {
        self.entries.len()
    }

    /// Whether there is no path.
    pub fn is_empty(&self) -> (r: bool)
        ensures
            r == (self@ == Map::<Seq<u8>, V>::empty()),
            r == (self.paths().len() == 0),
    {
        proof {
            use_type_invariant(self);
            if self.entries@.len() == 0 {
                assert(self@ =~= Map::<Seq<u8>, V>::empty());
            } else {
                lemma_entry(self.entries@, 0);
            }
        }
        self.entries.len() == 0
    }

    /// The entry at a position of the order.
    pub fn entry(&self, i: usize) -> (r: (&Vec<u8>, V))
        requires
            i < self.paths().len(),
        ensures
            r.0@ == self.paths()[i as int],
            self@.contains_key(r.0@),
            self@[r.0@] == r.1,
    {
        proof {
            use_type_invariant(self);
            lemma_entry(self.entries@, i as int);
        }
        (&self.entries[i].0, self.entries[i].1)
    }

    /// The first position whose path does not come before `path`.
    fn seek(&self, path: &[u8]) -> (r: usize)
        ensures
            r <= self.entries@.len(),
            forall|k: int| 0 <= k < r ==> path_lt((#[trigger] self.entries@[k]).0@, path@),
            forall|k: int|
                r <= k < self.entries@.len() ==> (#[trigger] self.entries@[k]).0@ == path@
                    || path_lt(path@, self.entries@[k].0@),
            forall|k: int|
                r < k < self.entries@.len() ==> path_lt(path@, (#[trigger] self.entries@[k]).0@),
    {
        proof {
            use_type_invariant(self);
        }
        let mut lo: usize = 0;
        let mut hi: usize = self.entries.len();
        while lo < hi
            invariant
                0 <= lo <= hi <= self.entries@.len(),
                sorted_entries(self.entries@),
                forall|k: int| 0 <= k < lo ==> path_lt((#[trigger] self.entries@[k]).0@, path@),
                forall|k: int|
                    hi <= k < self.entries@.len() ==> (#[trigger] self.entries@[k]).0@ == path@
                        || path_lt(path@, self.entries@[k].0@),
            decreases hi - lo,
        {
            let mid: usize = lo + (hi - lo) / 2;
            let ghost m = self.entries@[mid as int].0@;
            match compare_paths(self.entries[mid].0.as_slice(), path) {
                PathOrder::Before => {
                    assert forall|k: int| 0 <= k < mid + 1 implies path_lt(
                        (#[trigger] self.entries@[k]).0@,
                        path@,
                    ) by {
                        if k < mid {
                            path_lt_transitive(self.entries@[k].0@, m, path@);
                        }
                    }
                    lo = mid + 1;
                },
                _ => {
                    assert forall|k: int| mid <= k < self.entries@.len() implies (
                    #[trigger] self.entries@[k]).0@ == path@ || path_lt(
                        path@,
                        self.entries@[k].0@,
                    ) by {
                        if mid < k {
                            assert(path_lt(m, self.entries@[k].0@));
                            if m != path@ {
                                path_lt_transitive(path@, m, self.entries@[k].0@);
                            }
                        }
                    }
                    hi = mid;
                },
            }
        }
        proof {
            assert forall|k: int| lo < k < self.entries@.len() implies path_lt(
                path@,
                (#[trigger] self.entries@[k]).0@,
            ) by {
                let first = self.entries@[lo as int].0@;
                assert(path_lt(first, self.entries@[k].0@));
                if first != path@ {
                    path_lt_transitive(path@, first, self.entries@[k].0@);
                }
            }
        }
        lo
    }

    /// The value at a path.
    pub fn get(&self, path: &[u8]) -> (r: Option<V>)
        ensures
            match r {
                Some(v) => self@.contains_key(path@) && self@[path@] == v,
                None => !self@.contains_key(path@),
            },
    {
        proof {
            use_type_invariant(self);
        }
        let i = self.seek(path);
        if i < self.entries.len() {
            if crate::text::bytes_eq(self.entries[i].0.as_slice(), path) {
                proof {
                    lemma_entry(self.entries@, i as int);
                }
                return Some(self.entries[i].1);
            }
        }
        proof {
            path_lt_irreflexive(path@);
            lemma_no_entry(self.entries@, path@);
        }
        None
    }

    /// Whether there is a value at a path.
    pub fn contains(&self, path: &[u8]) -> (r: bool)
        ensures
            r == self@.contains_key(path@),
    {
        self.get(path).is_some()
    }

    /// Sets the value at a path, and returns the value it had.
    pub fn insert(&mut self, path: &[u8], value: V) -> (r: Option<V>)
        ensures
            final(self)@ == old(self)@.insert(path@, value),
            match r {
                Some(v) => old(self)@.contains_key(path@) && old(self)@[path@] == v
                    && final(self).paths() == old(self).paths(),
                None => !old(self)@.contains_key(path@),
            },
    {
        proof {
            use_type_invariant(&*self);
            path_lt_irreflexive(path@);
        }
        let ghost before = self.entries@;
        let i = self.seek(path);
        let mut entries: Vec<(Vec<u8>, V)> = Vec::new();
        std::mem::swap(&mut entries, &mut self.entries);
        let mut had: Option<V> = None;
        if i < entries.len() && crate::text::bytes_eq(entries[i].0.as_slice(), path) {
            proof {
                lemma_entry(before, i as int);
            }
            had = Some(entries[i].1);
            let _ = entries.remove(i);
        } else {
            proof {
                lemma_no_entry(before, path@);
            }
        }
        entries.insert(i, (vstd::slice::slice_to_vec(path), value));
        proof {
            lemma_inserted(before, entries@, i as int, path@, value, had is Some);
            if had is Some {
                assert(paths_of(entries@) =~= paths_of(before));
            }
        }
        self.entries = entries;
        had
    }

    /// Takes the value at a path out.
    pub fn remove(&mut self, path: &[u8]) -> (r: Option<V>)
        ensures
            final(self)@ == old(self)@.remove(path@),
            match r {
                Some(v) => old(self)@.contains_key(path@) && old(self)@[path@] == v,
                None => !old(self)@.contains_key(path@),
            },
    {
        proof {
            use_type_invariant(&*self);
            path_lt_irreflexive(path@);
        }
        let ghost before = self.entries@;
        let i = self.seek(path);
        if i < self.entries.len() && crate::text::bytes_eq(self.entries[i].0.as_slice(), path) {
            let mut entries: Vec<(Vec<u8>, V)> = Vec::new();
            std::mem::swap(&mut entries, &mut self.entries);
            let e = entries.remove(i);
            proof {
                lemma_entry(before, i as int);
                lemma_removed(before, entries@, i as int);
            }
            self.entries = entries;
            return Some(e.1);
        }
        proof {
            lemma_no_entry(before, path@);
            assert(self@.remove(path@) =~= self@);
        }
        None
    }

    /// A copy of the map.
    pub fn copy(&self) -> (r: Self)
        ensures
            r@ == self@,
            r.paths() == self.paths(),
    {
        proof {
            use_type_invariant(self);
        }
        let mut out: Vec<(Vec<u8>, V)> = Vec::new();
        let mut i: usize = 0;
        while i < self.entries.len()
            invariant
                0 <= i <= self.entries@.len(),
                out@.len() == i,
                forall|k: int|
                    0 <= k < i ==> (#[trigger] out@[k]).0@ == self.entries@[k].0@ && out@[k].1
                        == self.entries@[k].1,
            decreases self.entries@.len() - i,
        {
            out.push((copy_path(&self.entries[i].0), self.entries[i].1));
            i = i + 1;
        }
        proof {
            assert(paths_of(out@) =~= paths_of(self.entries@));
            assert(entries_map(out@) =~= entries_map(self.entries@)) by {
                assert forall|p: Seq<u8>| #[trigger] entries_map(out@).contains_key(p) implies
                    entries_map(out@)[p] == entries_map(self.entries@)[p] by {
                    let k = lemma_position(out@, p);
                    let j = paths_of(out@).index_of(p);
                    assert(0 <= j < out@.len());
                    assert(out@[j].1 == self.entries@[j].1);
                }
            }
            assert(sorted_entries(out@)) by {
                assert forall|a: int, b: int| 0 <= a < b < out@.len() implies path_lt(
                    (#[trigger] out@[a]).0@,
                    (#[trigger] out@[b]).0@,
                ) by {
                    assert(path_lt(self.entries@[a].0@, self.entries@[b].0@));
                }
            }
        }
        PathMap { entries: out }
    }

    /// The paths of this map that are, or are not, in another one.
    fn select<W: Copy>(&self, other: &PathMap<W>, wanted: bool) -> (r: Self)
        ensures
            forall|p: Seq<u8>| #[trigger]
                r@.contains_key(p) <==> self@.contains_key(p) && other@.contains_key(p) == wanted,
            forall|p: Seq<u8>| #[trigger] r@.contains_key(p) ==> r@[p] == self@[p],
    {
        let mut r = PathMap::new();
        let mut i: usize = 0;
        while i < self.val_count()
            invariant
                0 <= i <= self.paths().len(),
                forall|p: Seq<u8>| #[trigger]
                    r@.contains_key(p) <==> self.paths().take(i as int).contains(p)
                        && other@.contains_key(p) == wanted,
                forall|p: Seq<u8>| #[trigger] r@.contains_key(p) ==> r@[p] == self@[p],
            decreases self.paths().len() - i,
        {
            let (path, value) = self.entry(i);
            proof {
                lemma_take_contains(self.paths(), i as int);
            }
            if other.contains(path.as_slice()) == wanted {
                let _ = r.insert(path.as_slice(), value);
            }
            i = i + 1;
        }
        proof {
            use_type_invariant(self);
            self.lemma_paths();
            assert(self.paths().take(i as int) =~= self.paths());
        }
        r
    }

    /// The paths of this map that are not in another one.
    pub fn subtract<W: Copy>(&self, other: &PathMap<W>) -> (r: Self)
        ensures
            r@ == self@.remove_keys(other@.dom()),
    {
        let r = self.select(other, false);
        assert(r@ =~= self@.remove_keys(other@.dom()));
        r
    }

    /// The paths of this map that are in another one too.
    pub fn meet<W: Copy>(&self, other: &PathMap<W>) -> (r: Self)
        ensures
            r@ == self@.restrict(other@.dom()),
    {
        let r = self.select(other, true);
        assert(r@ =~= self@.restrict(other@.dom()));
        r
    }

    /// The paths of both maps. Where both have a value, that of this map stays.
    pub fn join(&self, other: &PathMap<V>) -> (r: Self)
        ensures
            r@ == other@.union_prefer_right(self@),
    {
        let mut r = other.copy();
        let mut i: usize = 0;
        proof {
            assert(other@.union_prefer_right(self@.restrict(self.paths().take(0).to_set()))
                =~= other@);
        }
        while i < self.val_count()
            invariant
                0 <= i <= self.paths().len(),
                r@ == other@.union_prefer_right(
                    self@.restrict(self.paths().take(i as int).to_set()),
                ),
            decreases self.paths().len() - i,
        {
            let (path, value) = self.entry(i);
            let _ = r.insert(path.as_slice(), value);
            proof {
                let s1 = self.paths().take(i + 1);
                lemma_take_contains(self.paths(), i as int);
                assert(r@ =~= other@.union_prefer_right(self@.restrict(s1.to_set())));
            }
            i = i + 1;
        }
        proof {
            use_type_invariant(self);
            assert(self.paths().take(i as int) =~= self.paths());
            assert forall|p: Seq<u8>| self@.contains_key(p) implies self.paths().to_set().contains(
                p,
            ) by {
                let k = lemma_position(self.entries@, p);
                assert(self.paths()[k] == p);
            }
            assert(self@.restrict(self.paths().to_set()) =~= self@);
        }
        r
    }

    /// Whether some path starts with a prefix; the prefix itself counts.
    pub fn any_below(&self, prefix: &[u8]) -> (r: bool)
        ensures
            r == exists|p: Seq<u8>| #[trigger] self@.contains_key(p) && starts_with(p, prefix@),
    {
        let mut i: usize = 0;
        while i < self.val_count()
            invariant
                0 <= i <= self.paths().len(),
                forall|k: int|
                    0 <= k < i ==> !starts_with(#[trigger] self.paths()[k], prefix@),
            decreases self.paths().len() - i,
        {
            let (path, _) = self.entry(i);
            if has_prefix(path.as_slice(), prefix) {
                return true;
            }
            i = i + 1;
        }
        proof {
            use_type_invariant(self);
            assert forall|p: Seq<u8>| #[trigger] self@.contains_key(p) implies !starts_with(
                p,
                prefix@,
            ) by {
                let k = lemma_position(self.entries@, p);
                assert(self.paths()[k] == p);
            }
        }
        false
    }
}

impl<V: Copy> PathMap<V> {
    /// Every path of the map is listed, and every listed path is in the map.
    pub proof fn lemma_paths(&self)
        requires
            self.well_formed(),
        ensures
            forall|p: Seq<u8>| self@.contains_key(p) <==> self.paths().contains(p),
            forall|i: int, j: int|
                0 <= i < j < self.paths().len() ==> path_lt(
                    #[trigger] self.paths()[i],
                    #[trigger] self.paths()[j],
                ),
    {
        assert forall|i: int, j: int| 0 <= i < j < self.paths().len() implies path_lt(
            #[trigger] self.paths()[i],
            #[trigger] self.paths()[j],
        ) by {
            assert(path_lt(self.entries@[i].0@, self.entries@[j].0@));
        }
    }
}

proof fn lemma_inserted<V>(
    before: Seq<(Vec<u8>, V)>,
    after: Seq<(Vec<u8>, V)>,
    i: int,
    path: Seq<u8>,
    value: V,
    had: bool,
)
    requires
        sorted_entries(before),
        0 <= i <= before.len(),
        had ==> i < before.len() && before[i].0@ == path,
        !had ==> forall|k: int| i <= k < before.len() ==> path_lt(path, (#[trigger] before[k]).0@),
        had ==> forall|k: int| i < k < before.len() ==> path_lt(path, (#[trigger] before[k]).0@),
        forall|k: int| 0 <= k < i ==> path_lt((#[trigger] before[k]).0@, path),
        after.len() == before.len() + if had {
            0int
        } else {
            1int
        },
        0 <= i < after.len(),
        after[i].0@ == path,
        after[i].1 == value,
        forall|k: int| 0 <= k < i ==> #[trigger] after[k] == before[k],
        forall|k: int|
            i < k < after.len() ==> #[trigger] after[k] == before[if had {
                k
            } else {
                k - 1
            }],
    ensures
        sorted_entries(after),
        entries_map(after) == entries_map(before).insert(path, value),
{
    assert forall|a: int, b: int| 0 <= a < b < after.len() implies path_lt(
        (#[trigger] after[a]).0@,
        (#[trigger] after[b]).0@,
    ) by {
        let a0 = if a <= i || had {
            a
        } else {
            a - 1
        };
        let b0 = if b <= i || had {
            b
        } else {
            b - 1
        };
        if a < i && b < i {
            assert(path_lt(before[a].0@, before[b].0@));
        } else if a < i && b == i {
            assert(path_lt(before[a].0@, path));
        } else if a < i {
            assert(after[a] == before[a] && after[b] == before[b0]);
            assert(path_lt(before[a].0@, before[b0].0@));
        } else if a == i {
            assert(after[b] == before[b0]);
        } else {
            assert(after[a] == before[a0] && after[b] == before[b0]);
            assert(path_lt(before[a0].0@, before[b0].0@));
        }
    }
    let m = entries_map(before).insert(path, value);
    path_lt_irreflexive(path);
    assert forall|k: int| 0 <= k < after.len() implies m.contains_key((#[trigger] after[k]).0@)
        && m[after[k].0@] == after[k].1 by {
        if k != i {
            let k0 = if k < i || had {
                k
            } else {
                k - 1
            };
            assert(after[k] == before[k0]);
            lemma_entry(before, k0);
            assert(before[k0].0@ != path);
        }
    }
    assert forall|p: Seq<u8>| #[trigger] m.contains_key(p) implies exists|k: int|
        0 <= k < after.len() && (#[trigger] after[k]).0@ == p by {
        if p == path {
            assert(after[i].0@ == p);
        } else {
            let k0 = lemma_position(before, p);
            let k = if k0 < i || had {
                k0
            } else {
                k0 + 1
            };
            assert(after[k] == before[k0]);
        }
    }
    lemma_same_map(after, m);
}

proof fn lemma_removed<V>(before: Seq<(Vec<u8>, V)>, after: Seq<(Vec<u8>, V)>, i: int)
    requires
        sorted_entries(before),
        0 <= i < before.len(),
        after == before.remove(i),
    ensures
        sorted_entries(after),
        entries_map(after) == entries_map(before).remove(before[i].0@),
{
    let path = before[i].0@;
    let m = entries_map(before).remove(path);
    assert forall|a: int, b: int| 0 <= a < b < after.len() implies path_lt(
        (#[trigger] after[a]).0@,
        (#[trigger] after[b]).0@,
    ) by {
        let a0 = if a < i {
            a
        } else {
            a + 1
        };
        let b0 = if b < i {
            b
        } else {
            b + 1
        };
        assert(after[a] == before[a0] && after[b] == before[b0]);
        assert(path_lt(before[a0].0@, before[b0].0@));
    }
    path_lt_irreflexive(path);
    assert forall|k: int| 0 <= k < after.len() implies m.contains_key((#[trigger] after[k]).0@)
        && m[after[k].0@] == after[k].1 by {
        let k0 = if k < i {
            k
        } else {
            k + 1
        };
        assert(after[k] == before[k0]);
        lemma_entry(before, k0);
        if k0 < i {
            assert(path_lt(before[k0].0@, path));
        } else {
            assert(path_lt(path, before[k0].0@));
        }
    }
    assert forall|p: Seq<u8>| #[trigger] m.contains_key(p) implies exists|k: int|
        0 <= k < after.len() && (#[trigger] after[k]).0@ == p by {
        let k0 = lemma_position(before, p);
        let k = if k0 < i {
            k0
        } else {
            k0 - 1
        };
        assert(after[k] == before[k0]);
    }
    lemma_same_map(after, m);
}

} // verus!
