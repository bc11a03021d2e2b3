//! Stores: maps of paths and of names, the writer of the log, the installation of a checkpoint, and
//! the loop that drives them.
use vstd::prelude::*;

use crate::mvcc::{below, has_any_below};
use crate::paths::{PathMap, Present};
use crate::run_loop::{loop_inv, possible, EngineLoop, LoopAction, LoopEvent};
use crate::table::Table;
use crate::wal::install::{Install, InstallAction, InstallEvent, InstallStage};
use crate::wal::writer::{Event, Outcome, Writer};

verus! {

/// What is put under a path is found there, and what was there is handed back; every other path is
/// as it was.
pub proof fn a_path_holds_what_was_put_there(
    m: &mut PathMap<u64>,
    path: &[u8],
    v: u64,
    before: Option<u64>,
    n: &PathMap<u64>,
    at: &[u8],
    r: Option<u64>,
)
    requires
        call_ensures(PathMap::<u64>::insert, (m, path, v), before),
        n@ == final(m)@,
        call_ensures(PathMap::<u64>::get, (n, at), r),
    ensures
        at@ == path@ ==> r == Some(v),
        at@ != path@ ==> (r is Some <==> old(m)@.contains_key(at@)),
        at@ != path@ && r is Some ==> r->0 == old(m)@[at@],
        before is Some <==> old(m)@.contains_key(path@),
        before is Some ==> before->0 == old(m)@[path@],
{
}

/// What is removed is handed back and not found any more; every other path is as it was.
pub proof fn a_removed_path_is_gone(
    m: &mut PathMap<u64>,
    path: &[u8],
    before: Option<u64>,
    n: &PathMap<u64>,
    at: &[u8],
    r: bool,
)
    requires
        call_ensures(PathMap::<u64>::remove, (m, path), before),
        n@ == final(m)@,
        call_ensures(PathMap::<u64>::contains, (n, at), r),
    ensures
        r <==> at@ != path@ && old(m)@.contains_key(at@),
        before is Some <==> old(m)@.contains_key(path@),
{
}

/// Two maps are taken apart, met and joined path by path; where both hold a path the first counts.
pub proof fn maps_are_combined_path_by_path(
    a: &PathMap<u64>,
    b: &PathMap<u64>,
    less: PathMap<u64>,
    both: PathMap<u64>,
    all: PathMap<u64>,
    p: Seq<u8>,
)
    requires
        call_ensures(PathMap::<u64>::subtract::<u64>, (a, b), less),
        call_ensures(PathMap::<u64>::meet::<u64>, (a, b), both),
        call_ensures(PathMap::<u64>::join, (a, b), all),
    ensures
        less@.contains_key(p) <==> a@.contains_key(p) && !b@.contains_key(p),
        both@.contains_key(p) <==> a@.contains_key(p) && b@.contains_key(p),
        all@.contains_key(p) <==> a@.contains_key(p) || b@.contains_key(p),
        less@.contains_key(p) ==> less@[p] == a@[p],
        both@.contains_key(p) ==> both@[p] == a@[p],
        a@.contains_key(p) ==> all@[p] == a@[p],
        !a@.contains_key(p) && b@.contains_key(p) ==> all@[p] == b@[p],
{
}

/// What is found below a prefix is a path that starts with it.
pub proof fn what_is_found_below_starts_so(m: &PathMap<u64>, prefix: &[u8])
    requires
        call_ensures(PathMap::<u64>::any_below, (m, prefix), true),
    ensures
        exists|q: Seq<u8>| #[trigger] m@.contains_key(q) && prefix@.is_prefix_of(q),
{
    let q = choose|q: Seq<u8>| #[trigger]
        m@.contains_key(q) && crate::bytes::starts_with(q, prefix@);
    assert(q.take(prefix@.len() as int) =~= q.subrange(0, prefix@.len() as int));
    assert(prefix@.is_prefix_of(q));
}

/// A path that starts with a prefix is found below it.
pub proof fn nothing_below_is_missed(m: &PathMap<Present>, prefix: &[u8], r: bool, p: Seq<u8>)
    requires
        call_ensures(has_any_below, (m, prefix), r),
        m@.contains_key(p),
        prefix@.is_prefix_of(p),
    ensures
        r,
{
    assert(p.take(prefix@.len() as int) =~= p.subrange(0, prefix@.len() as int));
    assert(m@.dom().contains(p));
    assert(crate::bytes::starts_with(p, prefix@));
    assert(below(m@.dom(), prefix@));
}

/// What is put under a name is found there, and every other name is as it was; a new name comes
/// last, and an old one keeps its place.
pub proof fn a_name_holds_what_was_put_there(
    t: &mut Table<String>,
    name: String,
    v: String,
    before: Option<String>,
    other: Seq<char>,
)
    requires
        call_ensures(Table::<String>::insert, (t, name, v), before),
    ensures
        final(t)@.contains_key(name@) && final(t)@[name@] == v,
        other != name@ ==> final(t)@.contains_key(other) == old(t)@.contains_key(other) && (old(
            t,
        )@.contains_key(other) ==> final(t)@[other] == old(t)@[other]),
        ({
            let was = old(t).rows().map_values(|r: (String, String)| r.0@);
            let is = final(t).rows().map_values(|r: (String, String)| r.0@);
            is == if old(t)@.contains_key(name@) {
                was
            } else {
                was.push(name@)
            }
        }),
        before is Some <==> old(t)@.contains_key(name@),
{
    assert(crate::table::row_names(old(t).rows()) =~= old(t).rows().map_values(
        |r: (String, String)| r.0@,
    ));
    assert(crate::table::row_names(final(t).rows()) =~= final(t).rows().map_values(
        |r: (String, String)| r.0@,
    ));
}

/// A name that is removed is not found any more; every other is as it was, in its order.
pub proof fn a_removed_name_is_gone(
    t: &mut Table<String>,
    name: &str,
    before: Option<String>,
    other: Seq<char>,
)
    requires
        call_ensures(Table::<String>::remove, (t, name), before),
    ensures
        !final(t)@.contains_key(name@),
        other != name@ ==> final(t)@.contains_key(other) == old(t)@.contains_key(other) && (old(
            t,
        )@.contains_key(other) ==> final(t)@[other] == old(t)@[other]),
        final(t).rows() == old(t).rows().filter(|r: (String, String)| r.0@ != name@),
        before is Some <==> old(t)@.contains_key(name@),
        before is Some ==> before->0 == old(t)@[name@],
{
}

/// A result that comes in is one less in flight and one more finished, a request that comes in one
/// more in flight; nothing else changes either count.
pub proof fn the_loop_keeps_count(l: &mut EngineLoop, e: LoopEvent, r: LoopAction)
    requires
        call_ensures(EngineLoop::step, (l, e), r),
        loop_inv(*old(l)),
        possible(*old(l), e),
        old(l).finished < u64::MAX,
    ensures
        ({
            let result = e == LoopEvent::Got && (old(l).asked == LoopAction::TryResult || old(
                l,
            ).asked is WaitResult);
            let request = e == LoopEvent::Got && !result;
            &&& final(l).workers == old(l).workers
            &&& final(l).finished == old(l).finished + (if result {
                1int
            } else {
                0
            })
            &&& final(l).in_flight == old(l).in_flight + (if request {
                1int
            } else if result {
                -1
            } else {
                0
            })
            &&& final(l).in_flight <= final(l).workers
            &&& r == final(l).asked
            &&& e == LoopEvent::Got ==> r == LoopAction::TryResult
        }),
{
    crate::run_laws::the_loop_counts(*old(l), e);
    crate::run_laws::the_loop_looks_before_it_waits(*old(l), e);
}

/// A frame waits behind those that came before it, and who waits for it waits behind those who came
/// before; a log that has failed takes nothing in.
pub proof fn frames_wait_in_order(
    w: &mut Writer,
    frame: Vec<u8>,
    ack: Option<u64>,
    due: bool,
    o: Outcome,
)
    requires
        call_ensures(Writer::step, (w, Event::Append { frame, ack }, due), o),
        old(w).stage is Parked || old(w).stage is Draining,
        crate::wal::writer::writer_inv(old(w)@),
    ensures
        !old(w).poisoned ==> final(w).batch@ == old(w).batch@ + frame@ && final(w).acks@ == (
        match ack {
            Some(a) => old(w).acks@.push(a),
            None => old(w).acks@,
        }) && o.replies@.len() == 0,
        old(w).poisoned ==> final(w).batch@ == old(w).batch@ && final(w).acks@ == old(w).acks@ && (
        ack matches Some(a) ==> o.replies@.len() == 1 && o.replies@[0].ack == a
            && o.replies@[0].error is Some),
{
    let e = Event::Append { frame, ack };
    assert(e@ == (crate::wal::writer::EventView::Append { frame: frame@, ack }));
    crate::wal::laws::what_comes_in_waits_its_turn(old(w)@, frame@, ack, due);
    assert(old(w)@.stage == old(w).stage@);
    assert(final(w)@.batch == final(w).batch@);
    assert(final(w)@.acks == final(w).acks@);
    let rs = crate::wal::writer::replies_view(o.replies@);
    assert(o@.replies == rs);
    assert(rs.len() == o.replies@.len());
    if rs.len() > 0 {
        assert(rs[0] == o.replies@[0]@);
    }
}

/// Once the log is synced everyone who waits is told that it is, one by one and in order.
pub proof fn a_sync_answers_everyone(w: &mut Writer, due: bool, o: Outcome, i: int)
    requires
        call_ensures(Writer::step, (w, Event::Done, due), o),
        old(w).stage is FlushSync,
        !old(w).poisoned,
        crate::wal::writer::writer_inv(old(w)@),
        0 <= i < old(w).acks@.len(),
    ensures
        o.replies@.len() == old(w).acks@.len(),
        o.replies@[i].ack == old(w).acks@[i],
        o.replies@[i].error is None,
        final(w).acks@.len() == 0,
        !final(w).dirty,
{
    assert(old(w)@.stage == old(w).stage@);
    crate::wal::laws::what_is_recorded_is_acknowledged(old(w)@, seq![], due);
    assert(Event::Done@ == crate::wal::writer::EventView::Done);
    let rs = crate::wal::writer::replies_view(o.replies@);
    assert(o@.replies == rs);
    assert(rs.len() == o.replies@.len());
    assert(rs[i] == o.replies@[i]@);
    assert(final(w)@.acks == final(w).acks@);
    assert(final(w)@.dirty == final(w).dirty);
}

/// A failure answers everyone who waits, and the log takes nothing from then on.
pub proof fn a_failure_answers_everyone(
    w: &mut Writer,
    text: String,
    due: bool,
    o: Outcome,
    i: int,
)
    requires
        call_ensures(Writer::step, (w, Event::Failed(text), due), o),
        old(w).stage is FlushSync || old(w).stage is FlushWrite,
        !old(w).poisoned,
        crate::wal::writer::writer_inv(old(w)@),
        0 <= i < old(w).acks@.len(),
    ensures
        final(w).poisoned,
        o.replies@.len() == old(w).acks@.len(),
        o.replies@[i].ack == old(w).acks@[i],
        o.replies@[i].error is Some,
{
    assert(old(w)@.stage == old(w).stage@);
    crate::wal::laws::what_is_recorded_is_acknowledged(old(w)@, text@, due);
    let e = Event::Failed(text);
    assert(e@ == crate::wal::writer::EventView::Failed(text@));
    let rs = crate::wal::writer::replies_view(o.replies@);
    assert(o@.replies == rs);
    assert(rs.len() == o.replies@.len());
    let out = crate::wal::writer::step_spec(old(w)@, e@, due).1.replies;
    assert(rs == out);
    assert(out[i].ack == old(w).acks@[i]);
    assert(rs[i] == o.replies@[i]@);
    assert(final(w)@.poisoned == final(w).poisoned);
}

/// A checkpoint is written beside its place, put there, made durable, and only then described; what
/// it supersedes goes last. Where a step before that fails it is given up.
pub proof fn a_checkpoint_is_installed_step_by_step(
    i: &mut Install,
    e: InstallEvent,
    r: InstallAction,
)
    requires
        call_ensures(Install::step, (i, e), r),
    ensures
        old(i)@.stage == InstallStage::Writing && e is Done ==> r is Rename && final(i)@.stage
            == InstallStage::Renaming,
        old(i)@.stage == InstallStage::Renaming && e is Done ==> r is SyncDir && final(i)@.stage
            == InstallStage::SyncingDir,
        old(i)@.stage == InstallStage::SyncingDir && e is Done ==> r is WriteMeta && final(i)@.stage
            == InstallStage::StoringMeta,
        old(i)@.stage == InstallStage::StoringMeta && e is Done ==> r is SwapMeta && final(i)@.stage
            == InstallStage::SwappingMeta,
        old(i)@.stage == InstallStage::SwappingMeta && e is Done ==> r is SyncDir && final(i)@.stage
            == InstallStage::SyncingMeta,
        old(i)@.stage == InstallStage::SyncingMeta && e is Done ==> r is List && final(i)@.stage
            == InstallStage::Listing,
        old(i)@.stage != InstallStage::Removing ==> (e matches InstallEvent::Failed(t) ==> (
        r matches InstallAction::GaveUp(s) && s@ == t@)),
{
    let v = e@;
}

} // verus!
