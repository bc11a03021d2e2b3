//! Sweeps: what is sampled, offered, kept, taken and served.
use vstd::prelude::*;

use crate::paths::PathMap;
use crate::scheduler::{
    finish_background_batch, Batch, CycleScheduler, Round, RoundAction, ScheduleAction,
    SchedulePolicy, SweepSpace,
};
use crate::sweep::af_topk::EcanAfTopK;
use crate::sweep::cpq::ChunkedPQTraverse;
use crate::sweep::operation::{build_operation, decay, Operation, Transform};
use crate::sweep::random_walk::RandomWalk;
use crate::sweep::registry::{
    waiting, AtomCandidate, Controllers, ProcessId, SweepController, SweepProcess,
    WeightedAtomSweep,
};
use crate::sweep::sti::{parse_sti_fact, read_max_af_size, Numbers, StiFact, StiIndex};
use crate::sweep::strategy::{build_strategy, Strategy, TraversalError};
use crate::sweep::traversal::{OfferAnswer, SampleAction, Traversal};
use crate::sweep::weights::{agg_w, node_agg_w};
use crate::table::Table;

verus! {

/// A decay takes a tenth of its atom's weight, rounded down and at least one, and touches no other;
/// an atom that is not there stays away.
pub proof fn decay_weighs_less(
    map: &mut PathMap<u64>,
    atom: &[u8],
    other: Seq<u8>,
)
    requires
        call_ensures(decay, (map, atom), ()),
    ensures
        final(map)@.dom() == old(map)@.dom(),
        other != atom@ ==> final(map)@[other] == old(map)@[other],
        old(map)@.contains_key(atom@) ==> ({
            let w = old(map)@[atom@];
            let n = final(map)@[atom@];
            &&& w == 0 ==> n == 0
            &&& 0 < w < 10 ==> n == w - 1
            &&& w >= 10 ==> n == w - w / 10
        }),
{
    assert(final(map)@.dom() =~= old(map)@.dom());
}

/// Only a decay can be asked for by name.
pub proof fn only_a_decay_is_built(kind: &str, params: &[String], r: Option<Operation>)
    requires
        call_ensures(build_operation, (kind, params), r),
    ensures
        r is Some <==> kind@ == "decay"@,
        r matches Some(op) ==> op.transform == Transform::Decay && op.name@ == "decay"@,
{
}

/// Three keys name a strategy, each its own.
pub proof fn strategies_are_built_by_key(key: &str, r: Option<Strategy>)
    requires
        call_ensures(build_strategy, (key,), r),
    ensures
        r == Some(Strategy::RandomWalk) <==> key@ == "random_walk"@,
        r == Some(Strategy::Cpq) <==> key@ == "cpq"@,
        r == Some(Strategy::EcanAfTopK) <==> key@ == "ecan_af_topk"@,
{
    crate::sweep::laws::strategies_are_named(key@);
}

/// The weight of a node is the sum of the weights of the paths that start with it.
pub proof fn a_node_weighs_what_is_below_it(
    map: &PathMap<u64>,
    prefix: &[u8],
    r: Result<u64, TraversalError>,
)
    requires
        call_ensures(node_agg_w, (map, prefix), r),
    ensures
        r matches Ok(w) && w == map.paths().filter(
            |p: Seq<u8>| prefix@.is_prefix_of(p),
        ).map_values(|p: Seq<u8>| map@[p] as int).fold_left(0int, |a: int, b: int| a + b),
{
    crate::sweep::laws::a_weight_is_a_sum(map@, map.paths(), prefix@);
}

/// Each atom is sampled on as many draws as its weight, side by side below the total.
pub proof fn atoms_are_sampled_by_weight(
    walk: &RandomWalk,
    map: &PathMap<u64>,
    path: Seq<u8>,
) -> (start: nat)
    requires
        map.well_formed(),
        map@.contains_key(path),
        agg_w(map, seq![]) > 0,
    ensures
        start + map@[path] <= agg_w(map, seq![]),
        forall|draw: u64, r: Result<Vec<u8>, TraversalError>|
            call_ensures(RandomWalk::atom_for, (walk, map, draw), r) ==> (r matches Ok(p) && (p@
                == path <==> start <= (draw as nat) % agg_w(map, seq![]) < start + map@[path])),
{
    let start = crate::sweep::laws::draws_are_shared_by_weight(map, path);
    assert forall|draw: u64, r: Result<Vec<u8>, TraversalError>|
        call_ensures(RandomWalk::atom_for, (walk, map, draw), r) implies (r matches Ok(p) && (p@
        == path <==> start <= (draw as nat) % agg_w(map, seq![]) < start + map@[path])) by {
        let s = crate::sweep::random_walk::sample(map, draw);
        assert(s is Some);
    }
    start
}

/// The heaviest chunk comes next, of equals the first by its bytes, and is not offered again; only
/// where there is none is there nothing to offer.
pub proof fn the_heaviest_chunk_comes_next(
    t: &mut ChunkedPQTraverse,
    map: &PathMap<u64>,
    r: Result<Vec<u8>, TraversalError>,
    other: Seq<u8>,
)
    requires
        call_ensures(ChunkedPQTraverse::next_atom, (t, map), r),
        old(t).chunks() != Map::<Seq<u8>, nat>::empty(),
    ensures
        r matches Ok(p) && old(t).chunks().contains_key(p@) && !final(t).chunks().contains_key(p@)
            && final(t).chunks() == old(t).chunks().remove(p@) && (old(t).chunks().contains_key(
            other,
        ) && other != p@ ==> old(t).chunks()[p@] > old(t).chunks()[other] || (old(t).chunks()[p@]
            == old(t).chunks()[other] && crate::paths::path_lt(p@, other))),
{
    match r {
        Ok(p) => {
            assert(old(t).chunks().contains_key(other) && other != p@
                ==> crate::sweep::cpq::served_before(old(t).chunks(), p@, other));
        },
        Err(_) => {},
    }
}

/// The focus comes out in its order, and when it is used up that is told.
pub proof fn the_focus_comes_out_in_order(
    t: &mut EcanAfTopK,
    map: &PathMap<u64>,
    numbers: &Numbers,
    r: Result<Vec<u8>, TraversalError>,
)
    requires
        call_ensures(EcanAfTopK::next_atom, (t, map, numbers), r),
        old(t).left() is Some,
    ensures
        old(t).left()->0.len() > 0 ==> (r matches Ok(p) && p@ == old(t).left()->0[0].path) && final(t).left() == Some(old(t).left()->0.skip(1)),
        old(t).left()->0.len() == 0 ==> r is Err && final(t).left() == old(t).left(),
        final(t).rebuild_total() == old(t).rebuild_total(),
{
    let q = old(t).left()->0;
    if q.len() > 0 {
        assert(q.drop_first() =~= q.skip(1));
    }
}

/// The index counts the malformed facts and lists the valid ones: each path's own, and no other.
pub proof fn an_index_lists_the_facts(map: &PathMap<u64>, numbers: &Numbers, r: StiIndex)
    requires
        call_ensures(StiIndex::scan, (map, numbers), r),
    ensures
        r.malformed_sti_facts == map.paths().filter(
            |p: Seq<u8>| crate::sweep::sti::sti_reading(p, numbers@) is Malformed,
        ).len(),
        forall|c: crate::sweep::sti::StiView| #[trigger]
            crate::sweep::sti::sti_views(r.candidates@).contains(c) <==> map.paths().filter(
                |p: Seq<u8>| crate::sweep::sti::sti_reading(p, numbers@) is Valid,
            ).map_values(
                |p: Seq<u8>| crate::sweep::sti::sti_reading(p, numbers@)->Valid_0,
            ).contains(c),
{
    crate::sweep::sti_laws::every_malformed_fact_is_counted(map.paths(), numbers@);
    crate::sweep::sti_laws::every_valid_fact_is_listed(map.paths(), numbers@);
}

/// Where no path tells a limit there is none, and where the only one that does tells a size that is
/// the limit.
pub proof fn the_limit_is_read(
    map: &PathMap<u64>,
    numbers: &Numbers,
    i: int,
    r: Result<usize, String>,
)
    requires
        call_ensures(read_max_af_size, (map, numbers), r),
        0 <= i <= map.paths().len(),
        forall|k: int|
            0 <= k < map.paths().len() && k != i ==> crate::sweep::sti::af_reading(
                #[trigger] map.paths()[k],
                numbers@,
            ) is Unrelated,
        i < map.paths().len() ==> crate::sweep::sti::af_reading(map.paths()[i], numbers@) is Size,
    ensures
        i == map.paths().len() ==> (r matches Err(e) && e@ == "MAX_AF_SIZE fact not found"@),
        i < map.paths().len() ==> r == Ok::<usize, String>(
            crate::sweep::sti::af_reading(map.paths()[i], numbers@)->Size_0,
        ),
{
    crate::sweep::sti_laws::the_limit_is_told_once(
        map.paths(),
        numbers@,
        i,
        map.paths().len() as int,
    );
}

/// Candidates join the buffer of their process; a buffer holds the last thousand that came.
pub proof fn candidates_join_their_buffer(
    s: &mut WeightedAtomSweep,
    received: &Vec<AtomCandidate>,
    process: Seq<char>,
)
    requires
        call_ensures(WeightedAtomSweep::buffer_candidates, (s, received), ()),
        waiting(old(s).buffers(), process).len() <= 1000,
    ensures
        ({
            let all = waiting(old(s).buffers(), process) + received@.map_values(
                |c: AtomCandidate| c@,
            ).filter(|c: crate::sweep::registry::CandidateView| c.process == process);
            waiting(final(s).buffers(), process) == if all.len() <= 1000 {
                all
            } else {
                all.skip(all.len() - 1000)
            }
        }),
        final(s).metrics == old(s).metrics,
        final(s).selected() == old(s).selected(),
{
    let views = crate::sweep::registry::candidate_views(received@);
    assert(views =~= received@.map_values(|c: AtomCandidate| c@));
    crate::sweep::laws::the_newest_candidates_wait(old(s).buffers(), views, process);
}

/// The oldest candidate of the version whose atom exists is selected; what stood before it is
/// counted as stale or as missing, and what stands behind it goes on waiting. Where none fits
/// nothing is selected.
pub proof fn the_oldest_candidate_that_fits_is_selected(
    s: &mut WeightedAtomSweep,
    id: &ProcessId,
    live: &PathMap<u64>,
    version: u64,
    r: bool,
    i: int,
)
    requires
        call_ensures(WeightedAtomSweep::select_existing_candidate, (s, id, live, version), r),
        old(s).buffers().contains_key(id.0@),
        0 <= i <= waiting(old(s).buffers(), id.0@).len(),
        old(s).metrics.candidates_consumed + waiting(old(s).buffers(), id.0@).len() <= u64::MAX,
        old(s).metrics.stale_version_candidates + waiting(old(s).buffers(), id.0@).len()
            <= u64::MAX,
        old(s).metrics.missing_path_candidates + waiting(old(s).buffers(), id.0@).len() <= u64::MAX,
        forall|j: int|
            0 <= j < i ==> (#[trigger] waiting(old(s).buffers(), id.0@)[j]).version != version
                || !live@.contains_key(waiting(old(s).buffers(), id.0@)[j].path),
        i < waiting(old(s).buffers(), id.0@).len() ==> waiting(old(s).buffers(), id.0@)[i].version
            == version && live@.contains_key(waiting(old(s).buffers(), id.0@)[i].path),
    ensures
        ({
            let b = waiting(old(s).buffers(), id.0@);
            let gone = b.take(i);
            &&& r <==> i < b.len()
            &&& r ==> final(s).selected().contains_key(id.0@) && final(s).selected()[id.0@] == b[i]
                && waiting(final(s).buffers(), id.0@) == b.skip(i + 1)
            &&& !r ==> final(s).selected() == old(s).selected() && waiting(
                final(s).buffers(),
                id.0@,
            ).len() == 0
            &&& final(s).metrics.candidates_consumed == old(s).metrics.candidates_consumed + (if r {
                1int
            } else {
                0
            })
            &&& final(s).metrics.stale_version_candidates == old(s).metrics.stale_version_candidates + gone.filter(
                |c: crate::sweep::registry::CandidateView| c.version != version,
            ).len()
            &&& final(s).metrics.missing_path_candidates == old(s).metrics.missing_path_candidates
                + gone.filter(
                |c: crate::sweep::registry::CandidateView|
                    c.version == version && !live@.contains_key(c.path),
            ).len()
        }),
{
    let b = waiting(old(s).buffers(), id.0@);
    crate::sweep::laws::the_oldest_fit_is_taken(b, live@, version, i);
    crate::sweep::laws::counters_count(old(s).metrics, b, live@, version);
}

/// A candidate that was selected is taken once, and only while its version is current and its atom
/// exists; else it is counted as stale or as missing.
pub proof fn a_selected_candidate_is_taken_once(
    s: &mut WeightedAtomSweep,
    id: &ProcessId,
    live: &PathMap<u64>,
    version: u64,
    r: Option<AtomCandidate>,
)
    requires
        call_ensures(WeightedAtomSweep::take_selected_candidate, (s, id, live, version), r),
        old(s).metrics.stale_version_candidates < u64::MAX,
        old(s).metrics.missing_path_candidates < u64::MAX,
    ensures
        !final(s).selected().contains_key(id.0@),
        ({
            let held = old(s).selected().contains_key(id.0@);
            let c = old(s).selected()[id.0@];
            let fits = held && c.version == version && live@.contains_key(c.path);
            &&& r is Some <==> fits
            &&& r matches Some(x) ==> x@ == c
            &&& final(s).metrics.stale_version_candidates == old(s).metrics.stale_version_candidates + (if held && c.version != version {
                1int
            } else {
                0
            })
            &&& final(s).metrics.missing_path_candidates == old(s).metrics.missing_path_candidates
                + (if held && c.version == version && !live@.contains_key(c.path) {
                1int
            } else {
                0
            })
        }),
{
}

/// Discarding leaves the candidates of the version, in their order, and no others.
pub proof fn only_current_candidates_are_kept(
    s: &mut WeightedAtomSweep,
    version: u64,
    process: Seq<char>,
)
    requires
        call_ensures(WeightedAtomSweep::discard_obsolete_candidates, (s, version), ()),
    ensures
        old(s).buffers().contains_key(process) ==> waiting(final(s).buffers(), process) == waiting(
            old(s).buffers(),
            process,
        ).filter(|c: crate::sweep::registry::CandidateView| c.version == version),
        final(s).selected().contains_key(process) <==> old(s).selected().contains_key(process)
            && old(s).selected()[process].version == version,
{
    if old(s).buffers().contains_key(process) {
        crate::sweep::laws::discarding_is_by_version(old(s).buffers()[process], version);
    }
}

/// A sweep that starts gets a new name and has not seen a snapshot; one that is removed is gone, and
/// no other is touched.
pub proof fn sweeps_come_and_go(
    a: &mut Controllers,
    threads: usize,
    name: String,
    b: &mut Controllers,
    gone: &str,
    r: Option<SweepController>,
    other: Seq<char>,
)
    requires
        call_ensures(Controllers::start, (a, threads), name),
        call_ensures(Controllers::remove, (b, gone), r),
    ensures
        !old(a)@.contains_key(name@),
        final(a)@.contains_key(name@),
        final(a)@[name@].threads == threads,
        final(a)@[name@].latest is None,
        other != name@ ==> final(a)@.contains_key(other) == old(a)@.contains_key(other) && (old(a)@.contains_key(other) ==> final(a)@[other] == old(a)@[other]),
        !final(b)@.contains_key(gone@),
        r is Some <==> old(b)@.contains_key(gone@),
        other != gone@ ==> final(b)@.contains_key(other) == old(b)@.contains_key(other) && (old(b)@.contains_key(other) ==> final(b)@[other] == old(b)@[other]),
{
}

/// A snapshot that is published reaches every sweep.
pub proof fn a_snapshot_reaches_every_sweep(
    s: &mut WeightedAtomSweep,
    version: u64,
    name: Seq<char>,
)
    requires
        call_ensures(WeightedAtomSweep::publish_snapshot, (s, version), ()),
    ensures
        final(s).controllers@.contains_key(name) == old(s).controllers@.contains_key(name),
        old(s).controllers@.contains_key(name) ==> final(s).controllers@[name].latest == Some(
            version,
        ) && final(s).controllers@[name].threads == old(s).controllers@[name].threads,
        final(s).buffers() == old(s).buffers(),
        final(s).selected() == old(s).selected(),
{
}

/// A sampler goes by the newest snapshot: it starts over where that is another than the one it had,
/// and waits where there has been none.
pub proof fn a_sampler_goes_by_the_newest_snapshot(
    t: &mut Traversal,
    shutdown: bool,
    latest: Option<u64>,
    r: SampleAction,
)
    requires
        call_ensures(Traversal::looked, (t, shutdown, latest), r),
    ensures
        shutdown <==> r is Exit,
        !shutdown && latest is Some ==> final(t).current() == latest && r == (SampleAction::Sample {
            reset: old(t).current() != latest,
        }),
        !shutdown && latest is None ==> final(t).current() == old(t).current() && (old(t).current() is Some ==> r == (SampleAction::Sample { reset: false })) && (old(t).current() is None ==> r is Look),
        final(t).offering() == old(t).offering(),
{
}

/// What is sampled is offered with the process and the snapshot that it is of; an offer that finds
/// no room is made again, and any other answer ends it.
pub proof fn what_is_sampled_is_offered(
    t: &mut Traversal,
    sample: Option<Vec<u8>>,
    a: SampleAction,
    u: &mut Traversal,
    answer: OfferAnswer,
    b: SampleAction,
)
    requires
        call_ensures(Traversal::sampled, (t, sample), a),
        call_ensures(Traversal::offered, (u, answer), b),
    ensures
        sample matches Some(path) ==> a is Offer && (final(t).offering() matches Some(c) && c.path
            == path@ && c.process == old(t).process() && c.version == old(t).current()->0),
        sample is None ==> a is Look && final(t).offering() is None,
        answer == OfferAnswer::Full ==> b is Offer && final(u).offering() == old(u).offering(),
        answer != OfferAnswer::Full ==> b is Look && final(u).offering() is None,
{
}

/// A process that is set up is served with its credits, after those that were set up before it; one
/// that is set up again keeps its place.
pub proof fn processes_keep_their_place(s: &mut CycleScheduler, id: ProcessId, credits: usize)
    requires
        call_ensures(CycleScheduler::configure_process, (s, id, credits), ()),
    ensures
        final(s).background_credits@.contains_key(id.0@),
        final(s).background_credits@[id.0@] == credits,
        ({
            let before = old(s).process_order@.map_values(|p: ProcessId| p.0@);
            let after = final(s).process_order@.map_values(|p: ProcessId| p.0@);
            after == if before.contains(id.0@) {
                before
            } else {
                before.push(id.0@)
            }
        }),
        final(s).policy == old(s).policy,
{
    assert(crate::scheduler::ids_view(old(s).process_order@) =~= old(s).process_order@.map_values(
        |p: ProcessId| p.0@,
    ));
    assert(crate::scheduler::ids_view(final(s).process_order@) =~= final(s).process_order@.map_values(|p: ProcessId| p.0@));
}

/// A rule is taken out while it runs and put back with its weight when it is done, so that nothing
/// is changed.
pub proof fn a_rule_is_put_back(
    s: &CycleScheduler,
    a: &mut PathMap<u64>,
    id: &ProcessId,
    r: Option<Batch>,
    b: &mut PathMap<u64>,
    batch: &Batch,
)
    requires
        call_ensures(CycleScheduler::execute_background_batch, (s, a, id), r),
        r == Some(*batch),
        old(b)@ == final(a)@,
        call_ensures(finish_background_batch, (b, batch), ()),
    ensures
        final(b)@ == old(a)@,
        old(a)@.contains_key(batch.rule@),
        !final(a)@.contains_key(batch.rule@),
        s.background_rules@.contains_key(id.0@),
        s.background_rules@[id.0@]@ == batch.rule@,
{
    crate::scheduler::rules_persist(old(a)@, batch.rule@);
    assert(s.rules().contains_key(id.0@));
}

/// A process without a rule, and one whose rule is not there, runs nothing.
pub proof fn no_rule_no_run(
    s: &CycleScheduler,
    a: &mut PathMap<u64>,
    id: &ProcessId,
    r: Option<Batch>,
)
    requires
        call_ensures(CycleScheduler::execute_background_batch, (s, a, id), r),
        !s.background_rules@.contains_key(id.0@) || !old(a)@.contains_key(
            s.background_rules@[id.0@]@,
        ),
    ensures
        r is None,
        final(a)@ == old(a)@,
{
    if s.background_rules@.contains_key(id.0@) {
        assert(s.rules()[id.0@] == s.background_rules@[id.0@]@);
    }
    assert(s.rules().contains_key(id.0@) == s.background_rules@.contains_key(id.0@));
}

/// A step starts with the foreground, with the credits of the policy; the background follows where
/// the policy is fair or the foreground did nothing; the step did what both did.
pub proof fn foreground_and_background_take_turns(
    s: &CycleScheduler,
    f: usize,
    b: usize,
    first: ScheduleAction,
    second: ScheduleAction,
    last: ScheduleAction,
)
    requires
        call_ensures(CycleScheduler::schedule_step, (s, None::<usize>, None::<usize>), first),
        call_ensures(CycleScheduler::schedule_step, (s, Some(f), None::<usize>), second),
        call_ensures(CycleScheduler::schedule_step, (s, Some(f), Some(b)), last),
        f + b <= usize::MAX,
    ensures
        s.policy matches SchedulePolicy::Fair { foreground_credits, .. } ==> first
            == ScheduleAction::Foreground(foreground_credits) && second
            == ScheduleAction::Background,
        s.policy matches SchedulePolicy::ForegroundPriority { max_foreground_quantum } ==> first
            == ScheduleAction::Foreground(max_foreground_quantum) && second == if f > 0 {
            ScheduleAction::Finished(f)
        } else {
            ScheduleAction::Background
        },
        last matches ScheduleAction::Finished(n) && n == f + b,
{
}

/// A rule that was interpreted is put back and counts as work; a round goes on from where it was.
pub proof fn an_interpreted_rule_counts(r: &mut Round, space: &mut SweepSpace)
    requires
        call_ensures(Round::interpreted, (r, space), ()),
        old(r).batch() is Some,
    ensures
        final(r)@.work == old(r)@.work + 1,
        !final(r)@.running,
        final(r)@.slots == old(r)@.slots,
        final(r)@.at == old(r)@.at,
        final(r)@.used == old(r)@.used,
        final(space).btm@ == old(space).btm@.insert(
            (old(r).batch()->0).0,
            (old(r).batch()->0).1,
        ),
        final(space).snapshot_version == old(space).snapshot_version,
{
}

/// A round that ends after some work makes a new version, which reaches every sweep; one that did
/// nothing makes none.
pub proof fn work_makes_a_new_version(
    r: &mut Round,
    s: &CycleScheduler,
    space: &mut SweepSpace,
    a: RoundAction,
    name: Seq<char>,
)
    requires
        call_ensures(Round::next, (r, s, space), a),
        old(space).snapshot_version < u64::MAX,
        0 <= old(r)@.at,
        !old(r)@.running,
        0 <= old(r)@.work <= usize::MAX,
    ensures
        a matches RoundAction::Done(n) ==> n == old(r)@.work && final(space).btm@ == old(space).btm@
            && if n > 0 {
            final(space).snapshot_version == old(space).snapshot_version + 1 && (old(space).was.controllers@.contains_key(name) ==> final(space).was.controllers@[name].latest
                == Some(final(space).snapshot_version))
        } else {
            final(space).snapshot_version == old(space).snapshot_version
        },
        a matches RoundAction::Interpret(rule) ==> final(space).snapshot_version == old(space).snapshot_version && final(space).btm@ == old(space).btm@.remove(rule@) && old(space).btm@.contains_key(rule@),
{
    crate::scheduler_laws::a_rule_is_run_for_a_candidate(
        old(r)@,
        old(space).stock(),
        s.rules(),
        old(space).snapshot_version,
    );
    assert(final(space).stock().btm == final(space).btm@);
    assert(old(space).stock().btm == old(space).btm@);
}

/// A fact about attention is read by its parts.
pub proof fn facts_are_read_by_their_parts(
    path: &[u8],
    numbers: &Numbers,
    items: Seq<crate::expr::ExprTree>,
    r: StiFact,
)
    requires
        call_ensures(parse_sti_fact, (path, numbers), r),
        crate::expr::encodable(crate::expr::ExprTree::List(items)),
        path@ == crate::expr::encode(crate::expr::ExprTree::List(items)),
        items.len() > 0,
    ensures
        ({
            let sti = crate::expr::ExprTree::Symbol(vstd::utf8::encode_utf8("STI"@));
            if items[0] != sti {
                r is Unrelated
            } else if items.len() == 3 && crate::expr::ground(items[1])
                && crate::sweep::sti_laws::ranked(items[2], numbers@) {
                r matches StiFact::Valid(c) && c.path@ == path@ && c.atom_key@
                    == crate::expr::encode(items[1])
            } else {
                r is Malformed
            }
        }),
{
    let t = crate::expr::ExprTree::List(items);
    assert(path@ + Seq::<u8>::empty() =~= path@);
    crate::sweep::sti_laws::a_fact_is_read_by_its_parts(t, seq![], numbers@);
    let v = r@;
}

/// The rules are indexed by the process that they draw from: the first of them for each, and none
/// for a process that none draws from.
pub proof fn rules_are_indexed_by_process(
    s: &mut CycleScheduler,
    btm: &PathMap<u64>,
    id: Seq<char>,
    k: int,
)
    requires
        call_ensures(CycleScheduler::index_background_rules, (s, btm), ()),
        0 <= k <= btm.paths().len(),
        forall|j: int|
            0 <= j < k ==> !(crate::scheduler::exec_prefix().is_prefix_of(
                #[trigger] btm.paths()[j],
            ) && crate::scheduler::rule_process(btm.paths()[j]) == Some(id)),
        k < btm.paths().len() ==> crate::scheduler::exec_prefix().is_prefix_of(btm.paths()[k])
            && crate::scheduler::rule_process(btm.paths()[k]) == Some(id),
    ensures
        final(s).background_rules@.contains_key(id) <==> k < btm.paths().len(),
        k < btm.paths().len() ==> final(s).background_rules@[id]@ == btm.paths()[k],
        final(s).policy == old(s).policy,
        final(s).process_order == old(s).process_order,
        final(s).background_credits == old(s).background_credits,
{
    crate::scheduler_laws::the_first_rule_serves(btm.paths(), id, k);
    assert(final(s).rules().contains_key(id) == final(s).background_rules@.contains_key(id));
    if k < btm.paths().len() {
        assert(final(s).rules()[id] == final(s).background_rules@[id]@);
    }
}

/// An engine that is added is found under its name, with its strategy; every other stays.
pub proof fn engines_are_added_by_name(
    s: &mut WeightedAtomSweep,
    name: &str,
    key: &str,
    other: Seq<char>,
)
    requires
        call_ensures(WeightedAtomSweep::add_engine, (s, name, key), ()),
    ensures
        final(s).processes@.contains_key(name@),
        final(s).processes@[name@].id.0@ == name@,
        key@ == "random_walk"@ ==> final(s).processes@[name@].engine == Strategy::RandomWalk,
        key@ == "cpq"@ ==> final(s).processes@[name@].engine == Strategy::Cpq,
        key@ == "ecan_af_topk"@ ==> final(s).processes@[name@].engine == Strategy::EcanAfTopK,
        other != name@ ==> final(s).processes@.contains_key(other) == old(
            s,
        ).processes@.contains_key(other),
        other != name@ && old(s).processes@.contains_key(other) ==> final(s).processes@[other]
            == old(s).processes@[other],
        final(s).buffers() == old(s).buffers(),
{
    crate::sweep::laws::strategies_are_named(key@);
    assert(final(s).processes@.dom().contains(name@));
    assert(final(s).processes@.dom().contains(other) == old(s).processes@.dom().insert(
        name@,
    ).contains(other));
}

/// What was added starts together, under one new name, and nothing is left to start.
pub proof fn what_was_added_starts_together(
    s: &mut WeightedAtomSweep,
    r: (String, Table<SweepProcess>),
)
    requires
        call_ensures(WeightedAtomSweep::spawn, (s,), r),
        old(s).processes.rows().len() <= usize::MAX,
    ensures
        r.1 == old(s).processes,
        final(s).processes.rows().len() == 0,
        !old(s).controllers@.contains_key(r.0@),
        final(s).controllers@.contains_key(r.0@),
        final(s).controllers@[r.0@].threads == old(s).processes.rows().len(),
        final(s).controllers@[r.0@].latest is None,
{
}

} // verus!
