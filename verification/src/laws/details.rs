//! Details: what ends, what is looked up, what is reported, and in which words.
use vstd::prelude::*;
use vstd::utf8::encode_utf8;

use crate::decimal_laws::{is_numeral, leading, numeral, numerals_are_written_with_a_point};
use crate::expr::{tag_name, Tag};
use crate::float::number_for_json;
use crate::http::is_unavailable;
use crate::json::Json;
use crate::laws::sessions::size;
use crate::mvcc::{Committed, Conflict};
use crate::output::print_dumping;
use crate::paths::{compare_paths, PathMap, PathOrder};
use crate::python::manager::{command_req_id, PyIpcError, PySessionManager};
use crate::python::protocol::{result_tree, PyCommand};
use crate::run_loop::maybe_checkpoint;
use crate::scheduler::{CycleScheduler, Round, SweepSpace};
use crate::sweep::cpq::ChunkedPQTraverse;
use crate::sweep::operation::log_atom;
use crate::sweep::registry::{waiting, AtomCandidate, ProcessId, WeightedAtomSweep};
use crate::sweep::strategy::{Strategy, TraversalError};
use crate::sweep::weights::WeightedMap;
use crate::text::dec_text;
use crate::transaction::{EngineError, Event};
use crate::wal::files::CkptMeta;
use crate::wal::segments::{magic_bytes, Corrupt};
use crate::wal::writer::{CkptRequest, Wal};

verus! {

/// A transaction that ends takes one of its bases with it; the state and the version stay.
pub proof fn an_end_takes_its_base(c: &mut Committed, base: u64)
    requires
        call_ensures(Committed::end, (c, base), ()),
    ensures
        final(c).btm@ == old(c).btm@,
        final(c).version == old(c).version,
        final(c).active_bases@.to_multiset() == old(c).active_bases@.to_multiset().remove(base),
{
    crate::mvcc_laws::an_end_takes_one_base(old(c)@, base);
    assert(final(c)@.version == final(c).version);
    assert(old(c)@.version == old(c).version);
    assert(final(c)@.active_bases == final(c).active_bases@);
    assert(old(c)@.active_bases == old(c).active_bases@);
}

/// Forgetting the history forgets nothing else.
pub proof fn only_history_is_forgotten(c: &mut Committed)
    requires
        call_ensures(Committed::forget_history, (c,), ()),
    ensures
        final(c).history@.len() == 0,
        final(c).version == old(c).version,
        final(c).btm@.dom() == old(c).btm@.dom(),
        final(c).active_bases@ == old(c).active_bases@,
{
    assert(final(c)@.history.len() == final(c).history@.len());
    assert(final(c)@.version == final(c).version);
    assert(final(c)@.btm == final(c).btm@.dom());
    assert(final(c)@.active_bases == final(c).active_bases@);
    assert(old(c)@.btm == old(c).btm@.dom());
    assert(old(c)@.active_bases == old(c).active_bases@);
}

/// A checkpoint is asked for exactly when there is a log that is in order and not busy with one,
/// checkpoints are on, so many transactions are finished, and none is running; it is of the
/// committed state, and the next is due after as many more.
pub proof fn checkpoints_are_asked_for_when_due(
    committed: &Committed,
    finished: u64,
    every: u64,
    tx_counter: u64,
    wal: &mut Option<Wal>,
    connected: bool,
    next: &mut u64,
    r: Option<CkptRequest>,
)
    requires
        call_ensures(
            maybe_checkpoint,
            (committed, finished, every, tx_counter, wal, connected, next),
            r,
        ),
        finished + every <= u64::MAX,
    ensures
        r is Some <==> (*old(wal) matches Some(w) && !w.ckpt_busy && !w.poisoned && connected
            && every > 0 && finished >= *old(next) && committed.active_bases@.len() == 0),
        r matches Some(req) ==> req.version == committed.version && req.tx_counter == tx_counter
            && req.format@ == "paths"@ && *final(next) == finished + every && (
        *final(wal) matches Some(w) && w.ckpt_busy),
        r is None ==> *final(next) == *old(next) && *final(wal) == *old(wal),
{
    crate::run_laws::a_checkpoint_is_asked_for_when_due(
        committed@,
        finished,
        every,
        tx_counter,
        *old(wal),
        connected,
        *old(next),
        *final(wal),
        *final(next),
        r,
    );
    assert(committed@.active_bases == committed.active_bases@);
    assert(committed@.version == committed.version);
}

/// A command names its request.
pub proof fn commands_name_their_request(c: &PyCommand, r: &String)
    requires
        call_ensures(command_req_id, (c,), r),
    ensures
        *c matches PyCommand::Import { req_id, .. } ==> r@ == req_id@,
        *c matches PyCommand::ImportFile { req_id, .. } ==> r@ == req_id@,
        *c matches PyCommand::GetAttr { req_id, .. } ==> r@ == req_id@,
        *c matches PyCommand::GetVariable { req_id, .. } ==> r@ == req_id@,
        *c matches PyCommand::SetVariable { req_id, .. } ==> r@ == req_id@,
        *c matches PyCommand::Call { req_id, .. } ==> r@ == req_id@,
        *c matches PyCommand::CallMethod { req_id, .. } ==> r@ == req_id@,
        *c matches PyCommand::DropObject { req_id, .. } ==> r@ == req_id@,
{
    let v = c@;
}

/// What an answer brings is kept under the request that its command names, and nothing else is
/// touched.
pub proof fn an_answer_is_kept_under_its_request(
    m: &mut PySessionManager,
    c: &PyCommand,
    id: &String,
    response: &Json,
    r: Result<(), PyIpcError>,
    other: Seq<char>,
)
    requires
        call_ensures(PySessionManager::finish_sink, (m, c, response), r),
        call_ensures(command_req_id, (c,), id),
    ensures
        r is Ok ==> final(m).results@.contains_key(id@),
        r is Err ==> final(m).results@ == old(m).results@,
        other != id@ ==> final(m).results@.contains_key(other) == old(m).results@.contains_key(
            other,
        ),
        other != id@ && old(m).results@.contains_key(other) ==> final(m).results@[other] == old(
            m,
        ).results@[other],
        final(m).workers == old(m).workers,
{
}

/// A query that is written as an expression is answered with the result that is kept for its
/// request, written as an expression.
pub proof fn a_written_query_is_answered(
    m: &PySessionManager,
    session: &str,
    query: &crate::expr::Expr,
    r: Result<Vec<u8>, PyIpcError>,
)
    requires
        call_ensures(PySessionManager::execute_source_expr, (m, session, query), r),
    ensures
        match crate::python::parse::command_of(query@) {
            Ok(c) => {
                let id = crate::python::manager::req_id_of(c);
                &&& r is Ok <==> m.results@.contains_key(id)
                &&& r matches Ok(b) ==> b@ == crate::expr::encode(result_tree(m.results@[id]@))
            },
            Err(_) => r is Err,
        },
{
}

/// A round starts at its first process, with nothing used and nothing done, for the processes that
/// have a rule; what was received has joined the buffers, and the atoms are as they were.
pub proof fn a_round_starts_at_its_first_process(
    s: &mut CycleScheduler,
    space: &mut SweepSpace,
    received: &Vec<AtomCandidate>,
    r: Round,
)
    requires
        call_ensures(CycleScheduler::run_background_round, (s, space, received), r),
    ensures
        r@.at == 0 && r@.used == 0 && r@.work == 0 && !r@.running,
        final(space).btm@ == old(space).btm@,
        final(space).snapshot_version == old(space).snapshot_version,
        forall|k: int|
            0 <= k < r@.slots.len() ==> final(s).rules().contains_key(
                (#[trigger] r@.slots[k]).0,
            ),
{
    let order = choose|order: Seq<Seq<char>>|
        crate::scheduler::serves(
            order,
            crate::scheduler::ids_view(old(s).process_order@),
            final(s).rules(),
        ) && r@.slots == #[trigger] crate::scheduler::slots_of(
            order,
            final(s).rules(),
            old(s).background_credits@,
            old(s).policy,
        );
    lemma_slots(order, final(s).rules(), old(s).background_credits@, old(s).policy);
}

proof fn lemma_slots(
    order: Seq<Seq<char>>,
    rules: crate::scheduler::Rules,
    credits: Map<Seq<char>, usize>,
    policy: crate::scheduler::SchedulePolicy,
)
    ensures
        forall|k: int|
            0 <= k < crate::scheduler::slots_of(order, rules, credits, policy).len()
                ==> rules.contains_key(
                (#[trigger] crate::scheduler::slots_of(order, rules, credits, policy)[k]).0,
            ),
    decreases order.len(),
{
    if order.len() > 0 {
        lemma_slots(order.drop_last(), rules, credits, policy);
        let front = crate::scheduler::slots_of(order.drop_last(), rules, credits, policy);
        let all = crate::scheduler::slots_of(order, rules, credits, policy);
        assert forall|k: int| 0 <= k < all.len() implies rules.contains_key(
            (#[trigger] all[k]).0,
        ) by {
            if k < front.len() {
                assert(all[k] == front[k]);
            }
        }
    }
}

/// The queue of chunks is filled with the chunks of the map at its depth, and emptied when the
/// snapshot changes.
pub proof fn the_queue_follows_the_snapshot(
    t: &mut ChunkedPQTraverse,
    map: &PathMap<u64>,
    u: &mut ChunkedPQTraverse,
    c: Seq<u8>,
)
    requires
        call_ensures(ChunkedPQTraverse::refresh, (t, map), ()),
        call_ensures(ChunkedPQTraverse::snapshot_changed, (u,), ()),
    ensures
        final(t).chunks().contains_key(c) <==> old(t).chunk_depth() > 0 && exists|i: int|
            0 <= i < map.paths().len() && (#[trigger] map.paths()[i]).len() >= old(t).chunk_depth()
                && c == map.paths()[i].take(old(t).chunk_depth() as int),
        !final(u).chunks().contains_key(c),
        final(u).chunk_depth() == old(u).chunk_depth(),
{
    crate::sweep::laws::chunks_are_the_heads_of_paths(
        map@,
        map.paths(),
        old(t).chunk_depth() as nat,
        c,
    );
}

/// The oldest candidate of a process is popped, and the others go on waiting.
pub proof fn the_oldest_candidate_is_popped(
    s: &mut WeightedAtomSweep,
    id: &ProcessId,
    r: Option<AtomCandidate>,
)
    requires
        call_ensures(WeightedAtomSweep::pop_candidate, (s, id), r),
    ensures
        ({
            let b = waiting(old(s).buffers(), id.0@);
            &&& r is Some <==> b.len() > 0
            &&& r matches Some(c) ==> c@ == b[0] && waiting(final(s).buffers(), id.0@) == b.skip(1)
            &&& r is None ==> final(s).buffers() == old(s).buffers()
        }),
{
    let b = waiting(old(s).buffers(), id.0@);
    if b.len() > 0 {
        assert(b.drop_first() =~= b.skip(1));
    }
}

/// The oldest candidate that fits is popped, and what stood before it is gone.
pub proof fn the_oldest_candidate_that_fits_is_popped(
    s: &mut WeightedAtomSweep,
    id: &ProcessId,
    live: &PathMap<u64>,
    version: u64,
    r: Option<AtomCandidate>,
    i: int,
)
    requires
        call_ensures(WeightedAtomSweep::pop_existing_candidate, (s, id, live, version), r),
        old(s).buffers().contains_key(id.0@),
        0 <= i <= waiting(old(s).buffers(), id.0@).len(),
        forall|j: int|
            0 <= j < i ==> (#[trigger] waiting(old(s).buffers(), id.0@)[j]).version != version
                || !live@.contains_key(waiting(old(s).buffers(), id.0@)[j].path),
        i < waiting(old(s).buffers(), id.0@).len() ==> waiting(old(s).buffers(), id.0@)[i].version
            == version && live@.contains_key(waiting(old(s).buffers(), id.0@)[i].path),
    ensures
        ({
            let b = waiting(old(s).buffers(), id.0@);
            &&& r is Some <==> i < b.len()
            &&& r matches Some(c) ==> c@ == b[i] && waiting(final(s).buffers(), id.0@) == b.skip(
                i + 1,
            )
            &&& r is None ==> waiting(final(s).buffers(), id.0@).len() == 0
        }),
        final(s).selected() == old(s).selected(),
{
    crate::sweep::laws::the_oldest_fit_is_taken(
        waiting(old(s).buffers(), id.0@),
        live@,
        version,
        i,
    );
}

/// A sweep that is shut down is gone and no other is; shutting all down leaves none.
pub proof fn sweeps_are_shut_down(
    s: &mut WeightedAtomSweep,
    name: &str,
    t: &mut WeightedAtomSweep,
    other: Seq<char>,
)
    requires
        call_ensures(WeightedAtomSweep::shutdown, (s, name), ()),
        call_ensures(WeightedAtomSweep::shutdown_all, (t,), ()),
    ensures
        final(s).controllers@.contains_key(other) <==> other != name@ && old(
            s,
        ).controllers@.contains_key(other),
        !final(t).controllers@.contains_key(other),
        final(s).buffers() == old(s).buffers(),
{
}

/// A report names the atom and its weight, which is nothing where there is no such atom.
pub proof fn a_report_tells_the_weight(
    map: &PathMap<u64>,
    atom: &[u8],
    shown: &str,
    r: String,
)
    requires
        call_ensures(log_atom, (map, atom, shown), r),
    ensures
        map@.contains_key(atom@) ==> r@ == "sweep atom: "@ + shown@ + " weight="@ + dec_text(
            map@[atom@] as nat,
        ),
        !map@.contains_key(atom@) ==> r@ == "sweep atom: "@ + shown@ + " weight="@ + dec_text(0),
{
}

/// A weight that is set is found, and no other is changed.
pub proof fn weights_are_set_one_by_one(
    m: &mut WeightedMap,
    path: &[u8],
    v: u64,
    s: Result<(), ()>,
    n: &WeightedMap,
    at: &[u8],
    r: Option<u64>,
)
    requires
        call_ensures(WeightedMap::set_weighted_val, (m, path, v), s),
        *n == *final(m),
        call_ensures(WeightedMap::get_val, (n, at), r),
    ensures
        s is Ok,
        at@ == path@ ==> r == Some(v),
        at@ != path@ ==> (r is Some <==> old(m).inner@.contains_key(at@)) && (r is Some ==> r->0
            == old(m).inner@[at@]),
{
}

/// Paths compare byte by byte, and a prefix comes before what it is a prefix of.
pub proof fn paths_compare_byte_by_byte(a: &[u8], b: &[u8], r: PathOrder, k: int)
    requires
        call_ensures(compare_paths, (a, b), r),
        0 <= k <= a@.len(),
        k <= b@.len(),
        a@.take(k) == b@.take(k),
        k < a@.len() && k < b@.len() ==> a@[k] != b@[k],
    ensures
        r == PathOrder::Before <==> k < b@.len() && (k == a@.len() || a@[k] < b@[k]),
        r == PathOrder::After <==> k < a@.len() && (k == b@.len() || b@[k] < a@[k]),
        k == a@.len() && k == b@.len() ==> r == PathOrder::Same,
{
    crate::sweep::sti_laws::paths_are_ordered_byte_by_byte(a@, b@, k);
    crate::sweep::sti_laws::paths_are_ordered_byte_by_byte(b@, a@, k);
    if r == PathOrder::Same {
        if k < a@.len() && k < b@.len() {
            assert(a@[k] != b@[k]);
        }
        assert(a@.len() == b@.len());
    }
}

/// A member of an object is found by its name.
pub proof fn members_are_looked_up(j: &Json, name: &str, r: Option<&Json>, k: int)
    requires
        call_ensures(Json::get, (j, name), r),
        *j is Object,
        0 <= k <= size(*j),
        forall|i: int| 0 <= i < k ==> (#[trigger] j->Object_0@[i]).0@ != name@,
        k < size(*j) ==> j->Object_0@[k].0@ == name@,
    ensures
        r is Some <==> k < size(*j),
        r matches Some(v) ==> v@ == j->Object_0@[k].1@,
{
    let ms = j->Object_0@;
    let view = crate::json::members_view(ms);
    assert forall|i: int| 0 <= i < ms.len() implies #[trigger] view[i] == (ms[i].0@, ms[i].1@) by {}
    assert(j@ == crate::json::JsonView::Object(view));
    crate::python::json_laws::members_are_found_by_name(view, name@, k);
}

/// How much is dumped is printed in a box.
pub proof fn dumps_are_announced(count: usize, r: String)
    requires
        call_ensures(print_dumping, (count,), r),
    ensures
        r@ == crate::output::box_rows(
            "Dumping"@,
            seq!["Expressions: "@ + dec_text(count as nat)],
        ).map_values(|row: Seq<char>| row.push('\n')).flatten() + "\n"@,
{
    reveal_strlit("");
    let line = "Expressions: "@ + dec_text(count as nat);
    assert(line + ""@ =~= line);
    crate::output_laws::rows_are_printed_in_order(
        crate::output::box_rows("Dumping"@, seq![line]),
    );
}

/// Tags are named by their kind, with their number.
pub proof fn tags_are_told(tag: Tag, r: String)
    requires
        call_ensures(tag_name, (tag,), r),
    ensures
        tag is NewVar ==> r@ == "NewVar"@,
        tag matches Tag::VarRef(i) ==> r@ == "VarRef("@ + dec_text(i as nat) + ")"@,
        tag matches Tag::SymbolSize(i) ==> r@ == "SymbolSize("@ + dec_text(i as nat) + ")"@,
        tag matches Tag::Arity(i) ==> r@ == "Arity("@ + dec_text(i as nat) + ")"@,
{
}

/// A conflict is told by its kind, and an error with its transaction and its detail.
pub proof fn reasons_are_told(
    c: &Conflict,
    why: &'static str,
    e: &EngineError,
    txid: &str,
    line: String,
)
    requires
        call_ensures(Conflict::reason, (c,), why),
        call_ensures(EngineError::log_internal, (e, txid), line),
    ensures
        *c == Conflict::WriteWrite ==> "conflict: "@.is_prefix_of(why@),
        *c == Conflict::Phantom ==> "phantom: "@.is_prefix_of(why@),
        *e is WalPoisoned ==> line@ == "tx "@ + txid@ + ": WAL poisoned, writes refused"@,
        *e matches EngineError::LoadFailed { detail } ==> line@ == "tx "@ + txid@
            + ": load failed: "@ + detail@,
{
    crate::run_laws::conflicts_are_told_apart();
}

/// An event of a transaction names it; the others name none.
pub proof fn events_name_their_transaction(ev: &Event, r: Option<&str>)
    requires
        call_ensures(Event::tx_id, (ev,), r),
    ensures
        r is None <==> *ev is Idle || *ev is Delta,
        *ev matches Event::Tx { tx, .. } ==> r->0@ == tx@,
        *ev matches Event::Step { tx, .. } ==> r->0@ == tx@,
        *ev matches Event::Quiescent { tx, .. } ==> r->0@ == tx@,
        *ev matches Event::Abort { tx, .. } ==> r->0@ == tx@,
        *ev matches Event::Budget { tx, .. } ==> r->0@ == tx@,
{
}

/// The service is unavailable where the reason starts by saying so.
pub proof fn unavailability_is_read_off_the_reason(text: &str, r: bool)
    requires
        call_ensures(is_unavailable, (text,), r),
    ensures
        r <==> encode_utf8("unavailable:"@).is_prefix_of(encode_utf8(text@)),
{
    let p = encode_utf8("unavailable:"@);
    let b = encode_utf8(text@);
    if b.len() >= p.len() {
        assert(b.take(p.len() as int) =~= b.subrange(0, p.len() as int));
    }
}

/// A segment starts with the eight letters of its format.
pub proof fn segments_start_with_their_format(r: Vec<u8>)
    requires
        call_ensures(magic_bytes, (), r),
    ensures
        r@ == encode_utf8("MORKWAL1"@),
{
    reveal_strlit("MORKWAL1");
    crate::text::lemma_ascii_bytes("MORKWAL1"@);
    assert(crate::text::ascii_bytes("MORKWAL1"@) =~= r@);
}

/// A description that is stored as a value loads as the same.
pub proof fn a_stored_description_loads(m: &CkptMeta, j: &Json, r: Result<CkptMeta, Corrupt>)
    requires
        call_ensures(CkptMeta::store, (m,), *j),
        call_ensures(CkptMeta::load, (j,), r),
    ensures
        r matches Ok(n) && n.snapshot@ == m.snapshot@ && n.format@ == m.format@ && n.version
            == m.version && n.tx_counter == m.tx_counter && n.first_segment == m.first_segment,
{
    crate::wal::files::meta_roundtrip(m@);
}

/// For others to read, a numeral has a digit before the point and one after it.
pub proof fn numbers_are_written_for_others(
    t: &str,
    w: Seq<u8>,
    pointed: bool,
    f: Seq<u8>,
    r: String,
)
    requires
        call_ensures(number_for_json, (t,), r),
        is_numeral(w, pointed, f),
        encode_utf8(t@) == numeral(w, pointed, f),
    ensures
        ({
            let z = leading(w) as int;
            let whole = if z == w.len() {
                seq![48u8]
            } else {
                w.skip(z)
            };
            let fraction = if f.len() == 0 {
                seq![48u8]
            } else {
                f
            };
            r@ == crate::text::readable_text(whole + seq![46u8] + fraction)
        }),
{
    numerals_are_written_with_a_point(w, pointed, f, seq![]);
    let b = numeral(w, pointed, f);
    assert(b + Seq::<u8>::empty() =~= b);
    let z = leading(w) as int;
    let whole = if z == w.len() {
        seq![48u8]
    } else {
        w.skip(z)
    };
    let fraction = if f.len() == 0 {
        seq![48u8]
    } else {
        f
    };
    let written = whole + seq![46u8] + fraction;
    assert(written + Seq::<u8>::empty() =~= written);
}

/// Strategies report under their name, and a failure to sample says so.
pub proof fn strategies_report_under_their_name(
    s: &Strategy,
    name: &'static str,
    e: &TraversalError,
    t: String,
)
    requires
        call_ensures(Strategy::name, (s,), name),
        call_ensures(TraversalError::to_text, (e,), t),
    ensures
        *s == Strategy::RandomWalk ==> name@ == "random_walk"@,
        *s == Strategy::Cpq ==> name@ == "pq"@,
        *s == Strategy::EcanAfTopK ==> name@ == "ecan_af_topk"@,
        t@ == "traversal error: "@ + e.message@,
{
}

} // verus!
