//! Snapshot isolation: what a transaction wrote, whether it conflicts, and its installation.
use std::collections::VecDeque;

use vstd::prelude::*;

use crate::bytes::starts_with;
use crate::paths::{PathMap, Present};

verus! {

/// What a transaction did, relative to the snapshot it started from.
pub struct WriteSet {
    pub added: PathMap<Present>,
    pub removed: PathMap<Present>,
}

/// One committed transaction's effect.
pub struct CommitRecord {
    pub version: u64,
    pub added: PathMap<Present>,
    pub removed: PathMap<Present>,
    /// Ground prefixes of the removal patterns that the transaction executed.
    pub remove_prefixes: Vec<Vec<u8>>,
}

/// Why a transaction lost validation.
#[derive(Clone, Copy, Debug, PartialEq, Eq, Structural)]
pub enum Conflict {
    /// A path that this transaction added was removed by a concurrent one, or the reverse.
    WriteWrite,
    /// A pattern-scoped removal raced an insertion that would have matched it.
    Phantom,
}

impl Conflict {
    pub open spec fn text(self) -> Seq<char> {
        match self {
            Conflict::WriteWrite => {
                "conflict: a path this transaction wrote was concurrently written"@
            },
            Conflict::Phantom => {
                "phantom: a pattern-scoped removal raced a concurrent insertion under the same prefix"@
            },
        }
    }

    /// What the client is told.
    pub fn reason(&self) -> (r: &'static str)
        ensures
            r@ == self.text(),
    {
        match self {
            Conflict::WriteWrite => {
                "conflict: a path this transaction wrote was concurrently written"
            },
            Conflict::Phantom => {
                "phantom: a pattern-scoped removal raced a concurrent insertion under the same prefix"
            },
        }
    }
}

/// A set of paths.
pub type Paths = Set<Seq<u8>>;

/// The mathematical value of a `WriteSet`.
pub ghost struct WriteSetView {
    pub added: Paths,
    pub removed: Paths,
}

/// The mathematical value of a `CommitRecord`.
pub ghost struct RecordView {
    pub version: u64,
    pub added: Paths,
    pub removed: Paths,
    pub remove_prefixes: Seq<Seq<u8>>,
}

pub open spec fn prefixes_view(ps: Seq<Vec<u8>>) -> Seq<Seq<u8>> {
    ps.map_values(|p: Vec<u8>| p@)
}

impl WriteSet {
    pub open spec fn view(&self) -> WriteSetView {
        WriteSetView { added: self.added@.dom(), removed: self.removed@.dom() }
    }
}

impl CommitRecord {
    pub open spec fn view(&self) -> RecordView {
        RecordView {
            version: self.version,
            added: self.added@.dom(),
            removed: self.removed@.dom(),
            remove_prefixes: prefixes_view(self.remove_prefixes@),
        }
    }
}

pub open spec fn history_view(h: Seq<CommitRecord>) -> Seq<RecordView> {
    h.map_values(|c: CommitRecord| c@)
}

/// The difference of two states, in both directions.
pub open spec fn difference(base: Paths, finished: Paths) -> WriteSetView {
    WriteSetView { added: finished.difference(base), removed: base.difference(finished) }
}

/// What a transaction wrote: what its final state has over its base, and what it lacks.
pub fn writeset(base: &PathMap<Present>, finished: &PathMap<Present>) -> (r: WriteSet)
    ensures
        r@ == difference(base@.dom(), finished@.dom()),
{
    let r = WriteSet { added: finished.subtract(base), removed: base.subtract(finished) };
    assert(r@.added =~= finished@.dom().difference(base@.dom()));
    assert(r@.removed =~= base@.dom().difference(finished@.dom()));
    r
}

/// Whether a path of the set is at or below a prefix.
pub open spec fn below(s: Paths, prefix: Seq<u8>) -> bool {
    exists|p: Seq<u8>| #[trigger] s.contains(p) && starts_with(p, prefix)
}

/// Whether the map holds a path at or below a prefix.
pub fn has_any_below(m: &PathMap<Present>, prefix: &[u8]) -> (r: bool)
    ensures
        r == below(m@.dom(), prefix@),
{
    let r = m.any_below(prefix);
    proof {
        if r {
            let p = choose|p: Seq<u8>| #[trigger] m@.contains_key(p) && starts_with(p, prefix@);
            assert(m@.dom().contains(p));
        } else {
            assert forall|p: Seq<u8>| #[trigger] m@.dom().contains(p) implies !starts_with(
                p,
                prefix@,
            ) by {
                assert(!m@.contains_key(p) || !starts_with(p, prefix@));
            }
        }
    }
    r
}

pub open spec fn overlap(a: Paths, b: Paths) -> bool {
    exists|p: Seq<u8>| #[trigger] a.contains(p) && b.contains(p)
}

pub open spec fn any_prefix_hits(prefixes: Seq<Seq<u8>>, s: Paths) -> bool {
    exists|i: int| 0 <= i < prefixes.len() && below(s, #[trigger] prefixes[i])
}

/// How a transaction conflicts with one that committed after it started.
///
/// A path added by one side and removed by the other loses information. Both adding it, or both
/// removing it, does not. A removal by pattern conflicts with an insertion under the pattern's
/// ground prefix, in both directions.
pub open spec fn conflict_with(
    ws: WriteSetView,
    remove_prefixes: Seq<Seq<u8>>,
    c: RecordView,
) -> Option<Conflict> {
    if overlap(ws.added, c.removed) || overlap(ws.removed, c.added) {
        Some(Conflict::WriteWrite)
    } else if any_prefix_hits(remove_prefixes, c.added) || any_prefix_hits(
        c.remove_prefixes,
        ws.added,
    ) {
        Some(Conflict::Phantom)
    } else {
        None
    }
}

/// The first conflict with a record newer than the base, from the `i`-th record on.
pub open spec fn first_conflict(
    ws: WriteSetView,
    remove_prefixes: Seq<Seq<u8>>,
    base_version: u64,
    history: Seq<RecordView>,
    i: int,
) -> Option<Conflict>
    decreases history.len() - i,
{
    if i < 0 || i >= history.len() {
        None
    } else if history[i].version > base_version && conflict_with(ws, remove_prefixes, history[i])
        is Some {
        conflict_with(ws, remove_prefixes, history[i])
    } else {
        first_conflict(ws, remove_prefixes, base_version, history, i + 1)
    }
}

/// Whether the history still holds every record newer than a base.
pub open spec fn reaches_back(history: Seq<RecordView>, base_version: u64) -> bool {
    history.len() == 0 || history[0].version <= base_version + 1
}

fn overlaps(a: &PathMap<Present>, b: &PathMap<Present>) -> (r: bool)
    ensures
        r == overlap(a@.dom(), b@.dom()),
{
    let m = a.meet(b);
    let empty = m.is_empty();
    proof {
        if empty {
            assert forall|p: Seq<u8>| #[trigger] a@.dom().contains(p) implies !b@.dom().contains(
                p,
            ) by {
                assert(!m@.contains_key(p));
            }
        } else {
            assert(!(m@ =~= Map::<Seq<u8>, Present>::empty()));
            let p = choose|p: Seq<u8>| m@.contains_key(p);
            assert(a@.dom().contains(p) && b@.dom().contains(p));
        }
    }
    !empty
}

fn prefix_hits(prefixes: &Vec<Vec<u8>>, m: &PathMap<Present>) -> (r: bool)
    ensures
        r == any_prefix_hits(prefixes_view(prefixes@), m@.dom()),
{
    let mut i: usize = 0;
    while i < prefixes.len()
        invariant
            0 <= i <= prefixes@.len(),
            forall|k: int|
                0 <= k < i ==> !below(m@.dom(), #[trigger] prefixes_view(prefixes@)[k]),
        decreases prefixes@.len() - i,
    {
        assert(prefixes_view(prefixes@)[i as int] == prefixes@[i as int]@);
        if has_any_below(m, prefixes[i].as_slice()) {
            return true;
        }
        i = i + 1;
    }
    false
}

/// Checks what a transaction wrote against every transaction that committed after it started.
pub fn validate(
    ws: &WriteSet,
    remove_prefixes: &Vec<Vec<u8>>,
    base_version: u64,
    history: &VecDeque<CommitRecord>,
) -> (r: Result<(), Conflict>)
    requires
        reaches_back(history_view(history@), base_version),
    ensures
        match r {
            Ok(()) => first_conflict(
                ws@,
                prefixes_view(remove_prefixes@),
                base_version,
                history_view(history@),
                0,
            ) is None,
            Err(c) => first_conflict(
                ws@,
                prefixes_view(remove_prefixes@),
                base_version,
                history_view(history@),
                0,
            ) == Some(c),
        },
{
    let ghost h = history_view(history@);
    let ghost mine = prefixes_view(remove_prefixes@);
    let mut i: usize = 0;
    while i < history.len()
        invariant
            0 <= i <= history@.len(),
            h == history_view(history@),
            mine == prefixes_view(remove_prefixes@),
            first_conflict(ws@, mine, base_version, h, 0) == first_conflict(
                ws@,
                mine,
                base_version,
                h,
                i as int,
            ),
        decreases history@.len() - i,
    {
        let c = &history[i];
        assert(h[i as int] == c@);
        if c.version > base_version {
            if overlaps(&ws.added, &c.removed) {
                return Err(Conflict::WriteWrite);
            }
            if overlaps(&ws.removed, &c.added) {
                return Err(Conflict::WriteWrite);
            }
            if prefix_hits(remove_prefixes, &c.added) {
                return Err(Conflict::Phantom);
            }
            if prefix_hits(&c.remove_prefixes, &ws.added) {
                return Err(Conflict::Phantom);
            }
        }
        i = i + 1;
    }
    Ok(())
}

/// A state after a transaction's effect.
pub open spec fn applied(state: Paths, ws: WriteSetView) -> Paths {
    state.union(ws.added).difference(ws.removed)
}

/// The committed state: its paths, its version, the effects that running transactions may still
/// conflict with, and the versions that running transactions started from.
pub struct Committed {
    pub btm: PathMap<Present>,
    pub version: u64,
    pub history: VecDeque<CommitRecord>,
    pub active_bases: Vec<u64>,
}

/// The mathematical value of a `Committed`.
pub ghost struct CommittedView {
    pub btm: Paths,
    pub version: u64,
    pub history: Seq<RecordView>,
    pub active_bases: Seq<u64>,
}

/// What holds of a committed state: the history has one record per version, up to the newest, and
/// holds every record newer than the base of a running transaction.
pub open spec fn committed_inv(c: CommittedView) -> bool {
    &&& c.history.len() <= c.version
    &&& forall|i: int|
        0 <= i < c.history.len() ==> (#[trigger] c.history[i]).version == c.version
            - c.history.len() + 1 + i
    &&& forall|i: int|
        0 <= i < c.active_bases.len() ==> c.version - c.history.len() <= #[trigger] c.active_bases[i]
            <= c.version
}

/// The smallest of some numbers; `None` where there are none.
pub open spec fn smallest(s: Seq<u64>) -> Option<u64>
    decreases s.len(),
{
    if s.len() == 0 {
        None
    } else {
        match smallest(s.drop_last()) {
            Some(m) => Some(
                if m <= s.last() {
                    m
                } else {
                    s.last()
                },
            ),
            None => Some(s.last()),
        }
    }
}

/// The history that running transactions may still need: the records newer than the oldest base.
pub open spec fn needed(history: Seq<RecordView>, bases: Seq<u64>) -> Seq<RecordView> {
    match smallest(bases) {
        None => seq![],
        Some(oldest) => history.filter(|c: RecordView| c.version > oldest),
    }
}

pub open spec fn install_spec(
    c: CommittedView,
    ws: WriteSetView,
    remove_prefixes: Seq<Seq<u8>>,
) -> CommittedView {
    let version = (c.version + 1) as u64;
    CommittedView {
        btm: applied(c.btm, ws),
        version,
        history: c.history.push(
            RecordView { version, added: ws.added, removed: ws.removed, remove_prefixes },
        ),
        active_bases: c.active_bases,
    }
}

pub open spec fn remove_first(s: Seq<u64>, x: u64) -> Seq<u64> {
    if s.contains(x) {
        s.remove(s.index_of_first(x)->0)
    } else {
        s
    }
}

pub open spec fn end_spec(c: CommittedView, base_version: u64) -> CommittedView {
    let bases = remove_first(c.active_bases, base_version);
    CommittedView { active_bases: bases, history: needed(c.history, bases), ..c }
}

pub(crate) proof fn lemma_smallest(s: Seq<u64>)
    ensures
        match smallest(s) {
            None => s.len() == 0,
            Some(m) => s.contains(m) && forall|i: int| 0 <= i < s.len() ==> m <= #[trigger] s[i],
        },
    decreases s.len(),
{
    if s.len() > 0 {
        let front = s.drop_last();
        lemma_smallest(front);
        assert(s[s.len() - 1] == s.last());
        if let Some(m) = smallest(front) {
            let k = choose|k: int| 0 <= k < front.len() && front[k] == m;
            assert(s[k] == m);
            assert forall|i: int| 0 <= i < s.len() implies smallest(s)->0 <= #[trigger] s[i] by {
                if i < front.len() {
                    assert(s[i] == front[i]);
                }
            }
        }
    }
}

/// Filtering an ascending history by age drops a front part of it.
proof fn lemma_needed_is_suffix(c: CommittedView, oldest: u64)
    requires
        committed_inv(c),
        c.version - c.history.len() <= oldest <= c.version,
    ensures
        c.history.filter(|r: RecordView| r.version > oldest) == c.history.skip(
            oldest - (c.version - c.history.len()),
        ),
{
    lemma_filter_suffix(
        c.history,
        oldest,
        c.version - c.history.len(),
        c.history.len() as int,
    );
    assert(c.history.take(c.history.len() as int) =~= c.history);
}

proof fn lemma_filter_suffix(h: Seq<RecordView>, oldest: u64, start: int, n: int)
    requires
        0 <= n <= h.len(),
        start <= oldest,
        forall|i: int| 0 <= i < h.len() ==> (#[trigger] h[i]).version == start + 1 + i,
    ensures
        h.take(n).filter(|r: RecordView| r.version > oldest) == if n <= oldest - start {
            Seq::<RecordView>::empty()
        } else {
            h.take(n).skip(oldest - start)
        },
    decreases n,
{
    reveal(Seq::filter);
    if n > 0 {
        lemma_filter_suffix(h, oldest, start, n - 1);
        assert(h.take(n).drop_last() =~= h.take(n - 1));
        assert(h.take(n).last() == h[n - 1]);
        if n > oldest - start {
            if n - 1 > oldest - start {
                assert(h.take(n - 1).skip(oldest - start).push(h[n - 1]) =~= h.take(n).skip(
                    oldest - start,
                ));
            } else {
                assert(Seq::<RecordView>::empty().push(h[n - 1]) =~= h.take(n).skip(
                    oldest - start,
                ));
            }
        }
    }
}

/// Starting, installing and ending keep the invariant; in particular, what `end` forgets no
/// running transaction can conflict with.
pub proof fn committed_inv_is_kept(
    c: CommittedView,
    ws: WriteSetView,
    remove_prefixes: Seq<Seq<u8>>,
    base: u64,
)
    requires
        committed_inv(c),
    ensures
        committed_inv(CommittedView { active_bases: c.active_bases.push(c.version), ..c }),
        c.version < u64::MAX ==> committed_inv(install_spec(c, ws, remove_prefixes)),
        committed_inv(end_spec(c, base)),
{
    let ended = end_spec(c, base);
    let bases = ended.active_bases;
    assert forall|i: int| 0 <= i < bases.len() implies c.version - c.history.len()
        <= #[trigger] bases[i] <= c.version by {
        if c.active_bases.contains(base) {
            c.active_bases.index_of_first_ensures(base);
            let k = c.active_bases.index_of_first(base)->0;
            let j = if i < k {
                i
            } else {
                i + 1
            };
            assert(bases[i] == c.active_bases[j]);
        }
    }
    lemma_smallest(bases);
    if let Some(oldest) = smallest(bases) {
        let k = choose|k: int| 0 <= k < bases.len() && bases[k] == oldest;
        assert(c.version - c.history.len() <= bases[k] <= c.version);
        lemma_needed_is_suffix(c, oldest);
        let d = oldest - (c.version - c.history.len());
        assert forall|i: int| 0 <= i < ended.history.len() implies (
        #[trigger] ended.history[i]).version == ended.version - ended.history.len() + 1 + i by {
            assert(ended.history[i] == c.history[d + i]);
        }
    }
    if c.version < u64::MAX {
        let n = install_spec(c, ws, remove_prefixes);
        assert forall|i: int| 0 <= i < n.history.len() implies (#[trigger] n.history[i]).version
            == n.version - n.history.len() + 1 + i by {
            if i < c.history.len() {
                assert(n.history[i] == c.history[i]);
            }
        }
        assert forall|i: int| 0 <= i < n.active_bases.len() implies n.version - n.history.len()
            <= #[trigger] n.active_bases[i] <= n.version by {
            assert(c.version - c.history.len() <= c.active_bases[i]);
        }
    }
}

impl Committed {
    pub open spec fn view(&self) -> CommittedView {
        CommittedView {
            btm: self.btm@.dom(),
            version: self.version,
            history: history_view(self.history@),
            active_bases: self.active_bases@,
        }
    }

    /// A state at a version, with nothing running.
    pub fn new(btm: PathMap<Present>, version: u64) -> (r: Self)
        ensures
            r@ == (CommittedView {
                btm: btm@.dom(),
                version,
                history: seq![],
                active_bases: seq![],
            }),
            committed_inv(r@),
    {
        let r = Committed { btm, version, history: VecDeque::new(), active_bases: Vec::new() };
        assert(r@.history =~= seq![]);
        assert(r@.active_bases =~= seq![]);
        r
    }

    /// A transaction starts from the current version.
    pub fn begin(&mut self) -> (r: u64)
        requires
            committed_inv(old(self)@),
        ensures
            r == old(self)@.version,
            final(self)@ == (CommittedView {
                active_bases: old(self)@.active_bases.push(r),
                ..old(self)@
            }),
            committed_inv(final(self)@),
            final(self).btm == old(self).btm,
    {
        proof {
            committed_inv_is_kept(self@, difference(set![], set![]), seq![], 0);
        }
        self.active_bases.push(self.version);
        self.version
    }

    /// Installs what a transaction wrote as the next version.
    pub fn install(&mut self, ws: WriteSet, remove_prefixes: Vec<Vec<u8>>) -> (r: u64)
        requires
            committed_inv(old(self)@),
            old(self).version < u64::MAX,
        ensures
            r == old(self).version + 1,
            final(self)@ == install_spec(old(self)@, ws@, prefixes_view(remove_prefixes@)),
            committed_inv(final(self)@),
    {
        proof {
            committed_inv_is_kept(self@, ws@, prefixes_view(remove_prefixes@), 0);
        }
        let btm = self.btm.join(&ws.added).subtract(&ws.removed);
        self.version = self.version + 1;
        let record = CommitRecord {
            version: self.version,
            added: ws.added,
            removed: ws.removed,
            remove_prefixes,
        };
        proof {
            assert(btm@.dom() =~= applied(old(self)@.btm, ws@));
        }
        self.btm = btm;
        self.history.push_back(record);
        assert(self@.history =~= old(self)@.history.push(record@));
        self.version
    }

    /// The oldest base of a running transaction.
    fn oldest_base(&self) -> (r: Option<u64>)
        ensures
            r == smallest(self.active_bases@),
    {
        let mut r: Option<u64> = None;
        let mut i: usize = 0;
        assert(self.active_bases@.take(0) =~= seq![]);
        while i < self.active_bases.len()
            invariant
                0 <= i <= self.active_bases@.len(),
                r == smallest(self.active_bases@.take(i as int)),
            decreases self.active_bases@.len() - i,
        {
            let ghost next = self.active_bases@.take(i + 1);
            assert(next.drop_last() =~= self.active_bases@.take(i as int));
            let b = self.active_bases[i];
            r = match r {
                Some(m) => Some(
                    if m <= b {
                        m
                    } else {
                        b
                    },
                ),
                None => Some(b),
            };
            i = i + 1;
        }
        assert(self.active_bases@.take(i as int) =~= self.active_bases@);
        r
    }

    /// Forgets the records that no running transaction needs.
    fn gc(&mut self)
        requires
            committed_inv(old(self)@),
        ensures
            final(self)@ == (CommittedView {
                history: needed(old(self)@.history, old(self)@.active_bases),
                ..old(self)@
            }),
            final(self).btm == old(self).btm,
    {
        match self.oldest_base() {
            None => {
                self.history.clear();
                assert(self@.history =~= seq![]);
            },
            Some(oldest) => {
                proof {
                    lemma_smallest(self.active_bases@);
                    let bases = self.active_bases@;
                    let k = choose|k: int| 0 <= k < bases.len() && bases[k] == oldest;
                    assert(self@.active_bases[k] == oldest);
                    lemma_needed_is_suffix(self@, oldest);
                }
                let ghost start = self@;
                let ghost d = oldest - (self@.version - self@.history.len());
                let ghost mut dropped: int = 0;
                assert(self@.history.skip(0) =~= self@.history);
                while self.history.len() > 0 && self.history[0].version <= oldest
                    invariant
                        committed_inv(start),
                        start.version == self@.version,
                        start.active_bases == self@.active_bases,
                        start.btm == self@.btm,
                        self.btm == old(self).btm,
                        d == oldest - (start.version - start.history.len()),
                        0 <= dropped <= d <= start.history.len(),
                        self@.history == start.history.skip(dropped),
                    decreases self@.history.len(),
                {
                    proof {
                        assert(self@.history[0] == start.history[dropped]);
                        assert(self@.history[0] == self.history@[0]@);
                    }
                    let ghost before = self.history@;
                    let _ = self.history.pop_front();
                    proof {
                        assert(self@.history =~= history_view(before).skip(1));
                        assert(self@.history =~= start.history.skip(dropped + 1));
                        dropped = dropped + 1;
                    }
                }
                proof {
                    if self@.history.len() > 0 {
                        assert(self@.history[0] == start.history[dropped]);
                        assert(self@.history[0] == self.history@[0]@);
                    }
                    assert(dropped == d);
                }
            },
        }
    }

    /// A transaction that started from a version has ended.
    pub fn end(&mut self, base_version: u64)
        requires
            committed_inv(old(self)@),
        ensures
            final(self)@ == end_spec(old(self)@, base_version),
            committed_inv(final(self)@),
            final(self).btm == old(self).btm,
    {
        proof {
            committed_inv_is_kept(self@, difference(set![], set![]), seq![], base_version);
            self@.active_bases.index_of_first_ensures(base_version);
        }
        let mut i: usize = 0;
        while i < self.active_bases.len() && self.active_bases[i] != base_version
            invariant
                0 <= i <= self.active_bases@.len(),
                forall|k: int| 0 <= k < i ==> self.active_bases@[k] != base_version,
            decreases self.active_bases@.len() - i,
        {
            i = i + 1;
        }
        if i < self.active_bases.len() {
            proof {
                assert(self@.active_bases[i as int] == base_version);
                let k = self@.active_bases.index_of_first(base_version)->0;
                assert(k == i);
            }
            let _ = self.active_bases.remove(i);
        }
        proof {
            let bases = remove_first(old(self)@.active_bases, base_version);
            assert(self@.active_bases =~= bases);
            assert(committed_inv(self@)) by {
                assert forall|k: int| 0 <= k < bases.len() implies self@.version
                    - self@.history.len() <= #[trigger] self@.active_bases[k] <= self@.version by {
                    if old(self)@.active_bases.contains(base_version) {
                        let f = old(self)@.active_bases.index_of_first(base_version)->0;
                        let j = if k < f {
                            k
                        } else {
                            k + 1
                        };
                        assert(bases[k] == old(self)@.active_bases[j]);
                    }
                }
            }
        }
        self.gc();
    }

    /// Forgets the whole history; nothing is running.
    pub fn forget_history(&mut self)
        requires
            old(self).active_bases@.len() == 0,
        ensures
            final(self)@ == (CommittedView { history: seq![], ..old(self)@ }),
            committed_inv(final(self)@),
    {
        self.history.clear();
        assert(self@.history =~= seq![]);
    }
}

/// Adding and removing touch different paths, so their order does not matter.
pub proof fn install_order_does_not_matter(base: Paths, finished: Paths, state: Paths)
    ensures
        ({
            let ws = difference(base, finished);
            &&& ws.added.disjoint(ws.removed)
            &&& applied(state, ws) == state.difference(ws.removed).union(ws.added)
        }),
{
    let ws = difference(base, finished);
    assert(applied(state, ws) =~= state.difference(ws.removed).union(ws.added));
}

/// Installing what a transaction wrote on the base it ran on gives its final state.
pub proof fn install_on_base_gives_finished(base: Paths, finished: Paths)
    ensures
        applied(base, difference(base, finished)) == finished,
{
    assert(applied(base, difference(base, finished)) =~= finished);
}

/// An untouched snapshot has an empty writeset, and an empty writeset changes nothing.
pub proof fn untouched_writes_nothing(base: Paths, state: Paths)
    ensures
        difference(base, base).added == Set::<Seq<u8>>::empty(),
        difference(base, base).removed == Set::<Seq<u8>>::empty(),
        applied(state, difference(base, base)) == state,
{
    assert(difference(base, base).added =~= Set::<Seq<u8>>::empty());
    assert(difference(base, base).removed =~= Set::<Seq<u8>>::empty());
    assert(applied(state, difference(base, base)) =~= state);
}

/// Validation misses nothing: it succeeds exactly when the transaction conflicts with no record
/// newer than its base.
pub proof fn validation_is_complete(
    ws: WriteSetView,
    remove_prefixes: Seq<Seq<u8>>,
    base_version: u64,
    history: Seq<RecordView>,
    i: int,
)
    requires
        0 <= i <= history.len(),
    ensures
        first_conflict(ws, remove_prefixes, base_version, history, i) is None <==> forall|k: int|
            i <= k < history.len() && (#[trigger] history[k]).version > base_version
                ==> conflict_with(ws, remove_prefixes, history[k]) is None,
    decreases history.len() - i,
{
    if i < history.len() {
        validation_is_complete(ws, remove_prefixes, base_version, history, i + 1);
        let here = history[i];
        if first_conflict(ws, remove_prefixes, base_version, history, i) is Some {
            if here.version > base_version && conflict_with(ws, remove_prefixes, here) is Some {
                assert(history[i].version > base_version);
            }
        }
    }
}

/// Two transactions that do not conflict can be installed in either order with the same result.
pub proof fn without_conflict_order_does_not_matter(
    state: Paths,
    ws: WriteSetView,
    remove_prefixes: Seq<Seq<u8>>,
    c: RecordView,
)
    requires
        conflict_with(ws, remove_prefixes, c) is None,
    ensures
        ({
            let other = WriteSetView { added: c.added, removed: c.removed };
            applied(applied(state, ws), other) == applied(applied(state, other), ws)
        }),
{
    let other = WriteSetView { added: c.added, removed: c.removed };
    let a = applied(applied(state, ws), other);
    let b = applied(applied(state, other), ws);
    assert forall|p: Seq<u8>| a.contains(p) <==> b.contains(p) by {
        if ws.added.contains(p) {
            assert(!c.removed.contains(p));
        }
        if ws.removed.contains(p) {
            assert(!c.added.contains(p));
        }
    }
    assert(a =~= b);
}

/// Two transactions that only add never conflict, whatever they add, unless one of them also
/// removed by a pattern; two that only remove never do.
pub proof fn additions_do_not_conflict(mine: Paths, theirs: Paths, version: u64)
    ensures
        conflict_with(
            WriteSetView { added: mine, removed: Set::empty() },
            seq![],
            RecordView { version, added: theirs, removed: Set::empty(), remove_prefixes: seq![] },
        ) is None,
        conflict_with(
            WriteSetView { added: Set::empty(), removed: mine },
            seq![],
            RecordView { version, added: Set::empty(), removed: theirs, remove_prefixes: seq![] },
        ) is None,
{
}

/// The empty prefix stands for every path: a removal by it conflicts with any insertion.
pub proof fn empty_prefix_conflicts_with_any_addition(
    ws: WriteSetView,
    prefixes: Seq<Seq<u8>>,
    i: int,
    c: RecordView,
    p: Seq<u8>,
)
    requires
        0 <= i < prefixes.len(),
        prefixes[i].len() == 0,
        c.added.contains(p),
    ensures
        conflict_with(ws, prefixes, c) is Some,
{
    assert(p.take(0) =~= prefixes[i]);
    assert(below(c.added, prefixes[i]));
}

} // verus!
