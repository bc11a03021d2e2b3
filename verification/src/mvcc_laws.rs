//! What validation and installation are for: which transactions conflict, what an installed
//! transaction leaves behind, and what may be forgotten when one ends.
use vstd::prelude::*;

use crate::bytes::starts_with;
use crate::mvcc::{
    below, conflict_with, difference, end_spec, first_conflict,
    install_spec, needed, overlap, CommittedView, Conflict, Paths, RecordView,
    WriteSetView,
};

verus! {

proof fn lemma_at_or_below(s: Paths, prefix: Seq<u8>, p: Seq<u8>)
    requires
        s.contains(p),
        prefix.is_prefix_of(p),
    ensures
        below(s, prefix),
{
    assert(p.take(prefix.len() as int) =~= p.subrange(0, prefix.len() as int));
    assert(starts_with(p, prefix));
}

/// A conflict with any record newer than the base is a conflict of the transaction.
proof fn lemma_found_later(
    ws: WriteSetView,
    prefixes: Seq<Seq<u8>>,
    base: u64,
    history: Seq<RecordView>,
    i: int,
    k: int,
)
    requires
        0 <= i <= k < history.len(),
        history[k].version > base,
        conflict_with(ws, prefixes, history[k]) is Some,
    ensures
        first_conflict(ws, prefixes, base, history, i) is Some,
    decreases k - i,
{
    if i < k {
        lemma_found_later(ws, prefixes, base, history, i + 1, k);
    }
}

proof fn lemma_none_found(
    ws: WriteSetView,
    prefixes: Seq<Seq<u8>>,
    base: u64,
    history: Seq<RecordView>,
    i: int,
)
    requires
        0 <= i <= history.len(),
        forall|k: int|
            i <= k < history.len() && (#[trigger] history[k]).version > base ==> conflict_with(
                ws,
                prefixes,
                history[k],
            ) is None,
    ensures
        first_conflict(ws, prefixes, base, history, i) is None,
    decreases history.len() - i,
{
    if i < history.len() {
        lemma_none_found(ws, prefixes, base, history, i + 1);
    }
}

/// Every race with a record newer than the base is a conflict: a path that one side added and the
/// other removed, and a path that one side added at or below any of the prefixes by which the other
/// removed, whichever record, whichever prefix and whichever path it is.
pub proof fn every_race_is_a_conflict(
    ws: WriteSetView,
    remove_prefixes: Seq<Seq<u8>>,
    base_version: u64,
    history: Seq<RecordView>,
    k: int,
)
    requires
        0 <= k < history.len(),
        history[k].version > base_version,
    ensures
        forall|p: Seq<u8>| #[trigger]
            ws.added.contains(p) && history[k].removed.contains(p) ==> first_conflict(
                ws,
                remove_prefixes,
                base_version,
                history,
                0,
            ) is Some,
        forall|p: Seq<u8>| #[trigger]
            ws.removed.contains(p) && history[k].added.contains(p) ==> first_conflict(
                ws,
                remove_prefixes,
                base_version,
                history,
                0,
            ) is Some,
        forall|i: int, p: Seq<u8>|
            #![trigger history[k].remove_prefixes[i], ws.added.contains(p)]
            0 <= i < history[k].remove_prefixes.len() && ws.added.contains(p)
                && history[k].remove_prefixes[i].is_prefix_of(p) ==> first_conflict(
                ws,
                remove_prefixes,
                base_version,
                history,
                0,
            ) is Some,
        forall|i: int, p: Seq<u8>|
            #![trigger remove_prefixes[i], history[k].added.contains(p)]
            0 <= i < remove_prefixes.len() && history[k].added.contains(p)
                && remove_prefixes[i].is_prefix_of(p) ==> first_conflict(
                ws,
                remove_prefixes,
                base_version,
                history,
                0,
            ) is Some,
{
    let c = history[k];
    assert forall|i: int, p: Seq<u8>|
        #![trigger c.remove_prefixes[i], ws.added.contains(p)]
        0 <= i < c.remove_prefixes.len() && ws.added.contains(p)
            && c.remove_prefixes[i].is_prefix_of(p) implies conflict_with(ws, remove_prefixes, c)
        is Some by {
        lemma_at_or_below(ws.added, c.remove_prefixes[i], p);
    }
    assert forall|i: int, p: Seq<u8>|
        #![trigger remove_prefixes[i], c.added.contains(p)]
        0 <= i < remove_prefixes.len() && c.added.contains(p) && remove_prefixes[i].is_prefix_of(
            p,
        ) implies conflict_with(ws, remove_prefixes, c) is Some by {
        lemma_at_or_below(c.added, remove_prefixes[i], p);
    }
    if conflict_with(ws, remove_prefixes, c) is Some {
        lemma_found_later(ws, remove_prefixes, base_version, history, 0, k);
    }
}

/// No conflict is made up: a transaction that races no record newer than its base is accepted,
/// whatever older records hold.
pub proof fn without_a_race_there_is_no_conflict(
    ws: WriteSetView,
    remove_prefixes: Seq<Seq<u8>>,
    base_version: u64,
    history: Seq<RecordView>,
)
    requires
        forall|k: int, p: Seq<u8>|
            #![trigger history[k], ws.added.contains(p)]
            0 <= k < history.len() && history[k].version > base_version && ws.added.contains(p)
                ==> !history[k].removed.contains(p),
        forall|k: int, p: Seq<u8>|
            #![trigger history[k], ws.removed.contains(p)]
            0 <= k < history.len() && history[k].version > base_version && ws.removed.contains(p)
                ==> !history[k].added.contains(p),
        forall|k: int, i: int, p: Seq<u8>|
            #![trigger history[k].remove_prefixes[i], ws.added.contains(p)]
            0 <= k < history.len() && history[k].version > base_version && 0 <= i
                < history[k].remove_prefixes.len() && ws.added.contains(p)
                ==> !history[k].remove_prefixes[i].is_prefix_of(p),
        forall|k: int, i: int, p: Seq<u8>|
            #![trigger remove_prefixes[i], history[k].added.contains(p)]
            0 <= k < history.len() && history[k].version > base_version && 0 <= i
                < remove_prefixes.len() && history[k].added.contains(p)
                ==> !remove_prefixes[i].is_prefix_of(p),
    ensures
        first_conflict(ws, remove_prefixes, base_version, history, 0) is None,
{
    assert forall|k: int|
        0 <= k < history.len() && (#[trigger] history[k]).version
            > base_version implies conflict_with(ws, remove_prefixes, history[k]) is None by {
        let c = history[k];
        assert(!overlap(ws.added, c.removed)) by {
            if overlap(ws.added, c.removed) {
                let p = choose|p: Seq<u8>| #[trigger]
                    ws.added.contains(p) && c.removed.contains(p);
                assert(!history[k].removed.contains(p));
            }
        }
        assert(!overlap(ws.removed, c.added)) by {
            if overlap(ws.removed, c.added) {
                let p = choose|p: Seq<u8>| #[trigger]
                    ws.removed.contains(p) && c.added.contains(p);
                assert(!history[k].added.contains(p));
            }
        }
        assert forall|i: int| 0 <= i < remove_prefixes.len() implies !below(
            c.added,
            #[trigger] remove_prefixes[i],
        ) by {
            if below(c.added, remove_prefixes[i]) {
                let p = choose|p: Seq<u8>| #[trigger]
                    c.added.contains(p) && starts_with(p, remove_prefixes[i]);
                assert(history[k].added.contains(p));
                lemma_starts(p, remove_prefixes[i]);
            }
        }
        assert forall|i: int| 0 <= i < c.remove_prefixes.len() implies !below(
            ws.added,
            #[trigger] c.remove_prefixes[i],
        ) by {
            if below(ws.added, c.remove_prefixes[i]) {
                let p = choose|p: Seq<u8>| #[trigger]
                    ws.added.contains(p) && starts_with(p, c.remove_prefixes[i]);
                lemma_starts(p, c.remove_prefixes[i]);
                assert(!history[k].remove_prefixes[i].is_prefix_of(p));
            }
        }
    }
    lemma_none_found(ws, remove_prefixes, base_version, history, 0);
}

proof fn lemma_starts(p: Seq<u8>, prefix: Seq<u8>)
    requires
        starts_with(p, prefix),
    ensures
        prefix.is_prefix_of(p),
{
    assert(p.take(prefix.len() as int) =~= p.subrange(0, prefix.len() as int));
}

/// The conflict that is reported is that of the first record that is raced: a path written by both
/// sides comes before a race with a removal by prefix.
pub proof fn the_first_race_is_reported(
    ws: WriteSetView,
    remove_prefixes: Seq<Seq<u8>>,
    base_version: u64,
    history: Seq<RecordView>,
    k: int,
    p: Seq<u8>,
)
    requires
        0 <= k < history.len(),
        history[k].version > base_version,
        first_conflict(ws, remove_prefixes, base_version, history.take(k), 0) is None,
    ensures
        (ws.added.contains(p) && history[k].removed.contains(p)) || (ws.removed.contains(p)
            && history[k].added.contains(p)) ==> first_conflict(
            ws,
            remove_prefixes,
            base_version,
            history,
            0,
        ) == Some(Conflict::WriteWrite),
        ws.added.disjoint(history[k].removed) && ws.removed.disjoint(history[k].added)
            && first_conflict(ws, remove_prefixes, base_version, history.take(k + 1), 0) is Some
            ==> first_conflict(ws, remove_prefixes, base_version, history, 0) == Some(
            Conflict::Phantom,
        ),
{
    assert(history.take(k + 1).take(k) =~= history.take(k));
    assert(history.take(k + 1)[k] == history[k]);
    lemma_skips_clean(ws, remove_prefixes, base_version, history, k, 0);
    lemma_skips_clean(ws, remove_prefixes, base_version, history.take(k + 1), k, 0);
    reveal_with_fuel(first_conflict, 2);
}

proof fn lemma_skips_clean(
    ws: WriteSetView,
    prefixes: Seq<Seq<u8>>,
    base: u64,
    history: Seq<RecordView>,
    k: int,
    i: int,
)
    requires
        0 <= i <= k <= history.len(),
        first_conflict(ws, prefixes, base, history.take(k), i) is None,
    ensures
        first_conflict(ws, prefixes, base, history, i) == first_conflict(
            ws,
            prefixes,
            base,
            history,
            k,
        ),
    decreases k - i,
{
    if i < k {
        assert(history.take(k)[i] == history[i]);
        lemma_skips_clean(ws, prefixes, base, history, k, i + 1);
    }
}

/// What a transaction wrote, path by path: it added what is in its final state and not in its base,
/// and removed what is in its base and not in its final state.
pub proof fn a_writeset_is_the_change(base: Paths, finished: Paths, p: Seq<u8>)
    ensures
        difference(base, finished).added.contains(p) <==> finished.contains(p) && !base.contains(p),
        difference(base, finished).removed.contains(p) <==> base.contains(p) && !finished.contains(
            p,
        ),
{
}

/// After an installation the newest state holds, path by path, what the transaction added and what
/// was there and was not removed; what the transaction did not touch stays as it was.
pub proof fn an_installation_changes_only_what_was_written(
    c: CommittedView,
    base: Paths,
    finished: Paths,
    remove_prefixes: Seq<Seq<u8>>,
    p: Seq<u8>,
)
    ensures
        ({
            let n = install_spec(c, difference(base, finished), remove_prefixes);
            &&& finished.contains(p) && !base.contains(p) ==> n.btm.contains(p)
            &&& base.contains(p) && !finished.contains(p) ==> !n.btm.contains(p)
            &&& base.contains(p) == finished.contains(p) ==> (n.btm.contains(p) <==> c.btm.contains(
                p,
            ))
        }),
{
}

/// An installation takes the next version, leaves one record of it behind all earlier ones, and
/// ends no transaction.
pub proof fn an_installation_is_recorded(
    c: CommittedView,
    ws: WriteSetView,
    remove_prefixes: Seq<Seq<u8>>,
)
    requires
        c.version < u64::MAX,
    ensures
        ({
            let n = install_spec(c, ws, remove_prefixes);
            &&& n.version == c.version + 1
            &&& n.active_bases == c.active_bases
            &&& n.history.len() == c.history.len() + 1
            &&& n.history.drop_last() == c.history
            &&& n.history.last().version == c.version + 1
            &&& n.history.last().added == ws.added
            &&& n.history.last().removed == ws.removed
            &&& n.history.last().remove_prefixes == remove_prefixes
        }),
{
    let n = install_spec(c, ws, remove_prefixes);
    assert(n.history.drop_last() =~= c.history);
}

/// A transaction that installs after another one sees it: racing what was just installed from an
/// older base is a conflict.
pub proof fn what_is_installed_is_guarded(
    c: CommittedView,
    ws: WriteSetView,
    remove_prefixes: Seq<Seq<u8>>,
    mine: WriteSetView,
    my_prefixes: Seq<Seq<u8>>,
    base_version: u64,
    i: int,
    p: Seq<u8>,
)
    requires
        base_version <= c.version < u64::MAX,
    ensures
        ({
            let n = install_spec(c, ws, remove_prefixes);
            (ws.added.contains(p) && mine.removed.contains(p)) || (ws.removed.contains(p)
                && mine.added.contains(p)) || (0 <= i < remove_prefixes.len()
                && remove_prefixes[i].is_prefix_of(p) && mine.added.contains(p)) || (0 <= i
                < my_prefixes.len() && my_prefixes[i].is_prefix_of(p) && ws.added.contains(p))
                ==> first_conflict(mine, my_prefixes, base_version, n.history, 0) is Some
        }),
{
    let n = install_spec(c, ws, remove_prefixes);
    let k = n.history.len() - 1;
    let last = n.history[k];
    assert(last.added == ws.added && last.removed == ws.removed);
    assert(last.remove_prefixes == remove_prefixes);
    every_race_is_a_conflict(mine, my_prefixes, base_version, n.history, k);
    if 0 <= i < remove_prefixes.len() && remove_prefixes[i].is_prefix_of(p) && mine.added.contains(
        p,
    ) {
        assert(n.history[k].remove_prefixes[i].is_prefix_of(p));
    }
    if 0 <= i < my_prefixes.len() && my_prefixes[i].is_prefix_of(p) && ws.added.contains(p) {
        assert(n.history[k].added.contains(p));
    }
}

/// When a transaction ends, one occurrence of its base goes and no other; state and version stay;
/// where nothing runs any more the history is empty.
pub proof fn an_end_takes_one_base(c: CommittedView, base: u64)
    ensures
        ({
            let n = end_spec(c, base);
            &&& n.btm == c.btm
            &&& n.version == c.version
            &&& n.active_bases.to_multiset() == c.active_bases.to_multiset().remove(base)
            &&& n.active_bases.len() == 0 ==> n.history.len() == 0
        }),
{
    let s = c.active_bases;
    broadcast use vstd::seq_lib::group_to_multiset_ensures;

    s.index_of_first_ensures(base);
    if s.contains(base) {
        let i = s.index_of_first(base)->0;
        vstd::seq_lib::to_multiset_remove(s, i);
    } else {
        assert(s.to_multiset().remove(base) =~= s.to_multiset());
    }
}

/// Ending a transaction forgets nothing that another may still conflict with: for every transaction
/// that runs on, validation comes out as it would have with the whole history.
pub proof fn an_end_forgets_nothing_needed(
    c: CommittedView,
    ended: u64,
    running: u64,
    ws: WriteSetView,
    prefixes: Seq<Seq<u8>>,
)
    requires
        end_spec(c, ended).active_bases.contains(running),
    ensures
        first_conflict(ws, prefixes, running, end_spec(c, ended).history, 0) == first_conflict(
            ws,
            prefixes,
            running,
            c.history,
            0,
        ),
{
    let bases = end_spec(c, ended).active_bases;
    crate::mvcc::lemma_smallest(bases);
    let oldest = crate::mvcc::smallest(bases)->0;
    let k = choose|k: int| 0 <= k < bases.len() && bases[k] == running;
    assert(oldest <= bases[k]);
    let pred = |r: RecordView| r.version > oldest;
    assert(needed(c.history, bases) == c.history.filter(pred));
    lemma_filter_keeps_conflicts(ws, prefixes, running, oldest, c.history);
}

/// The conflicts of records, put one behind the other.
proof fn lemma_push_conflict(
    ws: WriteSetView,
    prefixes: Seq<Seq<u8>>,
    base: u64,
    h: Seq<RecordView>,
    i: int,
    r: RecordView,
)
    requires
        0 <= i <= h.len(),
    ensures
        first_conflict(ws, prefixes, base, h.push(r), i) == match first_conflict(
            ws,
            prefixes,
            base,
            h,
            i,
        ) {
            Some(c) => Some(c),
            None => if r.version > base {
                conflict_with(ws, prefixes, r)
            } else {
                None
            },
        },
    decreases h.len() - i,
{
    reveal_with_fuel(first_conflict, 3);
    if i < h.len() {
        assert(h.push(r)[i] == h[i]);
        lemma_push_conflict(ws, prefixes, base, h, i + 1, r);
    }
}

proof fn lemma_filter_keeps_conflicts(
    ws: WriteSetView,
    prefixes: Seq<Seq<u8>>,
    base: u64,
    oldest: u64,
    h: Seq<RecordView>,
)
    requires
        oldest <= base,
    ensures
        first_conflict(ws, prefixes, base, h.filter(|r: RecordView| r.version > oldest), 0)
            == first_conflict(ws, prefixes, base, h, 0),
    decreases h.len(),
{
    reveal(Seq::filter);
    let pred = |r: RecordView| r.version > oldest;
    if h.len() > 0 {
        let front = h.drop_last();
        lemma_filter_keeps_conflicts(ws, prefixes, base, oldest, front);
        assert(front.push(h.last()) =~= h);
        lemma_push_conflict(ws, prefixes, base, front, 0, h.last());
        lemma_push_conflict(ws, prefixes, base, front.filter(pred), 0, h.last());
    }
}

} // verus!
