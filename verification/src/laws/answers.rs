//! Answers: which request is for whom, what clients are told, who is let in, and what is refused.
use vstd::prelude::*;
use vstd::utf8::{encode_utf8, valid_utf8};

use crate::admission::{AdmissionController, RunPermit, SsePermit};
use crate::events::{hello, lagged, passes, Delta, DeltaTask};
use crate::http::{
    body_failed, body_text, error_reply, export_failed, not_found, parse_query, percent_decode,
    prepare_as, route, run_reply, run_transaction, shut_down, stats, wants_deltas, Reply, Route,
};
use crate::json::Json;
use crate::laws::sessions::{lemma_members, size, tells, text_at};
use crate::paths::PathMap;
use crate::read::{check_expression, export_mode, parse_expr_bytes, ExportMode, ParseOutcome};
use crate::scheduler_config::{
    check_workers, default_foreground_transactions, default_poll_interval_ms,
    default_process_cycles, SchedulerConfig,
};
use crate::table::Table;
use crate::text::dec_text;
use crate::transaction::{Event, TxId, TxOk};

verus! {

/// Whether the member at a place has that name and holds that truth value.
pub open spec fn flag_at(j: Json, k: int, name: Seq<char>, b: bool) -> bool {
    j matches Json::Object(ms) && 0 <= k < ms@.len() && ms@[k].0@ == name && ms@[k].1 == Json::Bool(
        b,
    )
}

/// Whether the member at a place has that name and holds that number.
pub open spec fn number_at(j: Json, k: int, name: Seq<char>, n: int) -> bool {
    j matches Json::Object(ms) && 0 <= k < ms@.len() && ms@[k].0@ == name && (
    ms@[k].1 matches Json::Int(i) && i == n)
}

/// Whether a member of that name holds that truth value.
pub open spec fn marks(j: Json, name: Seq<char>, b: bool) -> bool {
    exists|k: int| #[trigger] flag_at(j, k, name, b)
}

/// Whether a member of that name holds that number.
pub open spec fn counts(j: Json, name: Seq<char>, n: int) -> bool {
    exists|k: int| #[trigger] number_at(j, k, name, n)
}

/// Whether an answer says that something failed, and what.
pub open spec fn fails_with(r: Reply, status: int, text: Seq<char>) -> bool {
    r.status == status && size(r.body) == 2 && marks(r.body, "ok"@, false) && tells(
        r.body,
        "error"@,
        text,
    )
}

proof fn lemma_failure(r: Reply, text: Seq<char>)
    requires
        r.body@ == crate::http::error_body(text),
    ensures
        fails_with(r, r.status as int, text),
{
    lemma_members(r.body);
    assert(flag_at(r.body, 0, "ok"@, false));
    assert(text_at(r.body, 1, "error"@, text));
}

/// A request is for the handler of its method and its path, and for no other.
pub proof fn requests_find_their_handler(method: &str, path: &str, r: Route)
    requires
        call_ensures(route, (method, path), r),
    ensures
        r == Route::Run <==> method@ == "POST"@ && path@ == "/run"@,
        r == Route::Events <==> method@ == "GET"@ && path@ == "/events"@,
        r == Route::Export <==> method@ == "GET"@ && path@ == "/export"@,
        r == Route::Stats <==> method@ == "GET"@ && path@ == "/stats"@,
{
    crate::http_laws::each_request_has_one_handler(method@, path@);
}

/// What goes wrong before a transaction runs is answered with its status and its reason.
pub proof fn failures_are_answered_with_a_reason(
    status: u16,
    text: &str,
    a: Reply,
    b: Reply,
    c: Reply,
    d: Reply,
)
    requires
        call_ensures(error_reply, (status, text), a),
        call_ensures(not_found, (), b),
        call_ensures(body_failed, (text,), c),
        call_ensures(shut_down, (), d),
    ensures
        fails_with(a, status as int, text@),
        fails_with(b, 404, "not found"@),
        fails_with(c, 400, "body read failed: "@ + text@),
        fails_with(d, 503, "engine is shut down"@),
{
    lemma_failure(a, text@);
    lemma_failure(b, "not found"@);
    lemma_failure(c, "body read failed: "@ + text@);
    lemma_failure(d, "engine is shut down"@);
}

/// A transaction is answered by how it ended: with what was done, or with the reason. Where the log
/// cannot take it the service is unavailable, and where nobody answers the server is at fault.
pub proof fn a_transaction_is_answered(answer: &Option<Result<TxOk, String>>, r: Reply)
    requires
        call_ensures(run_reply, (answer,), r),
    ensures
        *answer matches Some(Ok(ok)) ==> r.status == 200 && size(r.body) == 4 && marks(
            r.body,
            "ok"@,
            true,
        ) && tells(r.body, "tx"@, ok.tx@) && counts(r.body, "count"@, ok.count as int) && counts(
            r.body,
            "version"@,
            ok.version as int,
        ),
        *answer matches Some(Err(e)) ==> fails_with(
            r,
            if encode_utf8("unavailable:"@).is_prefix_of(encode_utf8(e@)) {
                503
            } else {
                422
            },
            e@,
        ),
        answer is None ==> fails_with(r, 500, "engine dropped the reply"@),
{
    match *answer {
        Some(Ok(ok)) => {
            lemma_members(r.body);
            assert(flag_at(r.body, 0, "ok"@, true));
            assert(text_at(r.body, 1, "tx"@, ok.tx@));
            assert(number_at(r.body, 2, "count"@, ok.count as int));
            assert(number_at(r.body, 3, "version"@, ok.version as int));
        },
        Some(Err(e)) => {
            lemma_failure(r, e@);
            lemma_prefix(e@);
        },
        None => {
            lemma_failure(r, "engine dropped the reply"@);
        },
    }
}

proof fn lemma_prefix(e: Seq<char>)
    ensures
        crate::http::unavailable(e) <==> encode_utf8("unavailable:"@).is_prefix_of(encode_utf8(e)),
{
    let p = encode_utf8("unavailable:"@);
    let b = encode_utf8(e);
    if b.len() >= p.len() {
        assert(b.take(p.len() as int) =~= b.subrange(0, p.len() as int));
    }
}

/// An export that fails is answered with the reason; where the server is at fault the service is
/// unavailable, and otherwise the request is bad.
pub proof fn a_failed_export_is_answered(e: &str, r: Reply)
    requires
        call_ensures(export_failed, (e,), r),
    ensures
        fails_with(
            r,
            if encode_utf8("unavailable:"@).is_prefix_of(encode_utf8(e@)) {
                503
            } else {
                400
            },
            e@,
        ),
{
    lemma_failure(r, e@);
    lemma_prefix(e@);
}

/// The gauges are the version, what is in flight, and the length of the history, each under its
/// name.
pub proof fn gauges_are_told(version: u64, in_flight: usize, history_len: usize, j: Json)
    requires
        call_ensures(stats, (version, in_flight, history_len), j),
    ensures
        size(j) == 3,
        counts(j, "version"@, version as int),
        counts(j, "in_flight"@, in_flight as int),
        counts(j, "history_len"@, history_len as int),
{
    lemma_members(j);
    assert(number_at(j, 0, "version"@, version as int));
    assert(number_at(j, 1, "in_flight"@, in_flight as int));
    assert(number_at(j, 2, "history_len"@, history_len as int));
}

/// A body that is text is taken as that text; any other is refused as a bad request.
pub proof fn bodies_are_text(body: &[u8], r: Result<String, Reply>)
    requires
        call_ensures(body_text, (body,), r),
    ensures
        r is Ok <==> valid_utf8(body@),
        r matches Ok(s) ==> encode_utf8(s@) == body@,
        r matches Err(reply) ==> fails_with(reply, 400, "body must be UTF-8 s-expression text"@),
{
    if valid_utf8(body@) {
        vstd::utf8::decode_utf8_encode_utf8(body@);
    } else {
        lemma_failure(r->Err_0, "body must be UTF-8 s-expression text"@);
    }
}

/// A body is rewritten for the transaction that it is to be: every exec in it runs in that
/// transaction's namespace. One that cannot be read is refused as a bad request.
pub proof fn a_body_is_prepared_for_its_transaction(
    body: &[u8],
    id: &TxId,
    r: Result<String, Reply>,
)
    requires
        call_ensures(prepare_as, (body, id), r),
        valid_utf8(body@),
    ensures
        match crate::wrap::parsed(vstd::utf8::decode_utf8(body@)) {
            Ok(es) => r matches Ok(s) && s@ == es.map_values(
                |e: crate::wrap::SExprView|
                    crate::wrap::text_of(crate::wrap::wrapped(e, id@)) + seq!['\n'],
            ).flatten(),
            Err(e) => r matches Err(reply) && fails_with(reply, 400, "parse error: "@ + e),
        },
{
    crate::http_laws::a_body_is_taken_in_wrapped(body@, id@);
    match crate::wrap::parsed(vstd::utf8::decode_utf8(body@)) {
        Ok(_) => {},
        Err(e) => lemma_failure(r->Err_0, "parse error: "@ + e),
    }
}

/// A transaction that is taken in gets a new identifier, which tells its count, and is prepared for
/// that one.
pub proof fn a_transaction_is_taken_in_under_its_count(
    body: &[u8],
    count: u64,
    r: Result<(TxId, String), Reply>,
)
    requires
        call_ensures(run_transaction, (body, count), r),
    ensures
        r matches Ok((id, source)) ==> crate::engine::id_number(id@) == Some(count)
            && crate::http::prepared(body@, id@) == Ok::<Seq<char>, Seq<char>>(source@),
        r matches Err(reply) ==> reply.status == 400,
{
    if r is Ok {
        let (id, source) = r->Ok_0;
        let n = choose|n: u64| id@ == #[trigger] crate::wrap::txid_text(count, n);
        crate::engine_laws::an_id_tells_its_number(
            count,
            crate::wrap::suffix_text(n as int, 8),
        );
    }
}

/// A part of a query that has nothing to decode is itself.
pub proof fn plain_parts_stay(b: &[u8], r: Option<String>)
    requires
        call_ensures(percent_decode, (b,), r),
        valid_utf8(b@),
        forall|i: int| 0 <= i < b@.len() ==> #[trigger] b@[i] != 37 && b@[i] != 43,
    ensures
        r matches Some(s) && encode_utf8(s@) == b@,
{
    lemma_plain(b@, 0);
    assert(b@.skip(0) =~= b@);
    vstd::utf8::decode_utf8_encode_utf8(b@);
}

proof fn lemma_plain(b: Seq<u8>, i: int)
    requires
        0 <= i <= b.len(),
        forall|j: int| i <= j < b.len() ==> #[trigger] b[j] != 37 && b[j] != 43,
    ensures
        crate::http::unescaped(b, i) == Some(b.skip(i)),
    decreases b.len() - i,
{
    if i < b.len() {
        assert(b[i] != 37 && b[i] != 43);
        lemma_plain(b, i + 1);
        assert(b.skip(i) =~= seq![b[i]] + b.skip(i + 1));
    } else {
        assert(b.skip(i) =~= seq![]);
    }
}

/// Deltas are asked for by the values `true` and `1` and by no other.
pub proof fn deltas_are_asked_for(query: &Table<String>, r: bool)
    requires
        call_ensures(wants_deltas, (query,), r),
    ensures
        r <==> query@.contains_key("deltas"@) && (query@["deltas"@]@ == "true"@ || query@["deltas"@]@
            == "1"@),
{
}

/// A client gets an event unless it is a delta that it did not ask for, or of a transaction other
/// than the one that it asked for.
pub proof fn a_client_gets_its_events(
    ev: &Event,
    tx_filter: &Option<String>,
    want_deltas: bool,
    r: bool,
)
    requires
        call_ensures(passes, (ev, tx_filter, want_deltas), r),
    ensures
        *ev is Delta ==> r == want_deltas,
        *ev is Idle ==> r,
        *ev matches Event::Tx { tx, .. } ==> r == (*tx_filter matches Some(t) ==> t@ == tx@),
        *ev matches Event::Step { tx, .. } ==> r == (*tx_filter matches Some(t) ==> t@ == tx@),
        *ev matches Event::Quiescent { tx, .. } ==> r == (*tx_filter matches Some(t) ==> t@ == tx@),
        *ev matches Event::Abort { tx, .. } ==> r == (*tx_filter matches Some(t) ==> t@ == tx@),
        *ev matches Event::Budget { tx, .. } ==> r == (*tx_filter matches Some(t) ==> t@ == tx@),
{
}

/// A delta shows what is new and what is gone since the last look, where someone wants to know and
/// the version has changed; the look is remembered either way.
pub proof fn a_look_shows_the_change(
    task: &mut DeltaTask,
    delta_subs: usize,
    version: u64,
    btm: PathMap<u64>,
    r: Option<Delta>,
    p: Seq<u8>,
)
    requires
        call_ensures(DeltaTask::observe, (task, delta_subs, version, btm), r),
    ensures
        r is Some <==> delta_subs > 0 && version != old(task).last_version(),
        r matches Some(d) ==> (d.added@.contains_key(p) <==> btm@.contains_key(p) && !old(
            task,
        ).last_map().contains_key(p)) && (d.removed@.contains_key(p) <==> old(
            task,
        ).last_map().contains_key(p) && !btm@.contains_key(p)),
        final(task).last_version() == version,
        final(task).last_map() == btm@,
{
}

/// A run is let in while fewer than the limit are in flight, and counts until it is released.
pub proof fn runs_are_let_in_up_to_the_limit(c: &mut AdmissionController, r: Option<RunPermit>)
    requires
        call_ensures(AdmissionController::acquire_run, (c,), r),
    ensures
        r is Some <==> old(c)@.inflight < old(c)@.max_inflight,
        r is Some ==> final(c)@.inflight == old(c)@.inflight + 1,
        r is None ==> final(c)@.inflight == old(c)@.inflight,
        r matches Some(p) ==> p.limit() == old(c)@.max_body_bytes,
        final(c)@.max_inflight == old(c)@.max_inflight,
        final(c)@.sse_subs == old(c)@.sse_subs,
        final(c)@.delta_subs == old(c)@.delta_subs,
        final(c)@.max_sse_subs == old(c)@.max_sse_subs,
        final(c)@.max_body_bytes == old(c)@.max_body_bytes,
{
}

/// A run that is released leaves room for another.
pub proof fn a_released_run_leaves_room(c: &mut AdmissionController, p: RunPermit)
    requires
        call_ensures(AdmissionController::release_run, (c, p), ()),
        old(c)@.inflight > 0,
    ensures
        final(c)@.inflight == old(c)@.inflight - 1,
        final(c)@.sse_subs == old(c)@.sse_subs,
        final(c)@.delta_subs == old(c)@.delta_subs,
        final(c)@.max_inflight == old(c)@.max_inflight,
        final(c)@.max_sse_subs == old(c)@.max_sse_subs,
{
}

/// A listener is let in while there are fewer than the limit, and starts without deltas.
pub proof fn listeners_are_let_in_up_to_the_limit(c: &mut AdmissionController, r: Option<SsePermit>)
    requires
        call_ensures(AdmissionController::acquire_sse, (c,), r),
    ensures
        r is Some <==> old(c)@.sse_subs < old(c)@.max_sse_subs,
        r is Some ==> final(c)@.sse_subs == old(c)@.sse_subs + 1,
        r is None ==> final(c)@.sse_subs == old(c)@.sse_subs,
        r matches Some(p) ==> !p.wants_deltas(),
        final(c)@.inflight == old(c)@.inflight,
        final(c)@.delta_subs == old(c)@.delta_subs,
        final(c)@.max_sse_subs == old(c)@.max_sse_subs,
{
}

/// A listener that wants deltas counts as one that does, until it is released; then it counts as no
/// listener at all.
pub proof fn listeners_to_deltas_are_counted(
    c: &mut AdmissionController,
    p: SsePermit,
    q: SsePermit,
    d: &mut AdmissionController,
)
    requires
        call_ensures(AdmissionController::with_deltas, (c, p), q),
        call_ensures(AdmissionController::release_sse, (d, q), ()),
        old(d)@ == final(c)@,
        old(c)@.delta_subs < old(c)@.sse_subs,
    ensures
        final(c)@.delta_subs == old(c)@.delta_subs + 1,
        final(c)@.sse_subs == old(c)@.sse_subs,
        final(c)@.inflight == old(c)@.inflight,
        final(d)@.delta_subs == old(c)@.delta_subs,
        final(d)@.sse_subs == old(c)@.sse_subs - 1,
        final(d)@.inflight == old(c)@.inflight,
{
}

/// Pattern and template come together or not at all.
pub proof fn pattern_and_template_come_together(
    pattern: Option<&str>,
    template: Option<&str>,
    r: Result<ExportMode, String>,
)
    requires
        call_ensures(export_mode, (pattern, template), r),
    ensures
        r is Ok <==> (pattern is Some <==> template is Some),
        r matches Ok(m) ==> (m is Query <==> pattern is Some) && (m is All <==> pattern is None),
        r matches Err(e) ==> e@ == "pattern and template must be provided together"@,
{
}

/// An expression of more than 2048 bytes is refused, whatever it is; any other is what the kernel
/// makes of it.
pub proof fn long_expressions_are_refused(
    text: &str,
    outcome: ParseOutcome,
    r: Result<Vec<u8>, String>,
    s: Result<(), String>,
)
    requires
        call_ensures(parse_expr_bytes, (text, outcome), r),
        call_ensures(check_expression, (text,), s),
    ensures
        s is Ok <==> encode_utf8(text@).len() <= 2048,
        r is Ok <==> encode_utf8(text@).len() <= 2048 && outcome is Parsed,
        r matches Ok(b) ==> outcome == ParseOutcome::Parsed(b),
        encode_utf8(text@).len() > 2048 ==> (r matches Err(e) && e@
            == "expression too long (max 2048 bytes)"@),
{
}

/// There is at least one worker, and no more than the most that there may be.
pub proof fn workers_are_bounded(workers: usize, max: usize, r: Result<(), String>)
    requires
        call_ensures(check_workers, (workers, max), r),
    ensures
        r is Ok <==> 1 <= workers <= max,
        r matches Err(e) ==> e@ == "--workers must be between 1 and "@ + dec_text(max as nat),
{
}

/// A round has ten foreground transactions unless told otherwise, a process one cycle, and polls
/// are ten milliseconds apart.
pub proof fn defaults_are_modest(a: usize, b: usize, c: u64)
    requires
        call_ensures(default_foreground_transactions, (), a),
        call_ensures(default_process_cycles, (), b),
        call_ensures(default_poll_interval_ms, (), c),
    ensures
        a == 10 && b == 1 && c == 10,
{
}

/// A configuration is accepted exactly where both of its numbers are positive and every process has
/// a name of its own, some cycles, and an engine that exists.
pub proof fn bad_configurations_are_refused(c: &SchedulerConfig, r: Result<(), String>)
    requires
        call_ensures(SchedulerConfig::validate, (c,), r),
    ensures
        r is Ok <==> c.foreground_transactions_per_round > 0 && c.poll_interval_ms > 0 && forall|
            k: int,
        |
            0 <= k < c.processes@.len() ==> #[trigger] crate::run_laws::can_be_set_up(
                c.processes@,
                k,
            ),
{
    crate::run_laws::a_configuration_is_accepted_where_all_is_well(*c);
}

/// A query of one part gives the part's value under its name; of more parts, each that has a name
/// gives its own, and of two of one name the later counts.
pub proof fn a_query_gives_values_by_name(
    q: &str,
    first: Seq<u8>,
    key: Seq<u8>,
    value: Seq<u8>,
    k: Seq<char>,
    v: Seq<char>,
    r: Table<String>,
)
    requires
        call_ensures(parse_query, (q,), r),
        encode_utf8(q@) == key + seq![61u8] + value || encode_utf8(q@) == first + seq![38u8] + (key
            + seq![61u8] + value),
        !first.contains(38),
        !key.contains(38) && !value.contains(38),
        !key.contains(61),
        key.len() > 0,
        crate::http::decoded_part(key) == Some(k),
        crate::http::decoded_part(value) == Some(v),
    ensures
        r@.contains_key(k) && r@[k]@ == v,
{
    let part = key + seq![61u8] + value;
    let none = Map::<Seq<char>, Seq<char>>::empty();
    assert(!part.contains(38)) by {
        if part.contains(38) {
            let i = choose|i: int| 0 <= i < part.len() && part[i] == 38;
            if i < key.len() {
                assert(key[i] == 38);
            } else if i > key.len() {
                assert(value[i - key.len() - 1] == 38);
            }
        }
    }
    crate::http_laws::a_query_part_names_a_value(key, value);
    crate::http_laws::a_query_is_read_part_by_part(part, seq![], none);
    crate::http_laws::a_query_is_read_part_by_part(first, part, none);
    crate::http_laws::a_query_is_read_part_by_part(
        part,
        seq![],
        crate::http::query_from(first, 0, none),
    );
    let m = crate::http::texts_of(r@);
    assert(m.contains_key(k) && m[k] == v);
}

/// A new client is told the version, how much there is, and who is running, each under its name.
pub proof fn a_new_client_is_greeted(version: u64, count: usize, active: &Vec<String>, j: Json)
    requires
        call_ensures(hello, (version, count, active), j),
    ensures
        size(j) == 3,
        counts(j, "version"@, version as int),
        counts(j, "count"@, count as int),
        j matches Json::Object(ms) && ms@[2].0@ == "active_txs"@ && (
        ms@[2].1 matches Json::Array(items) && items@.len() == active@.len() && forall|i: int|
            0 <= i < items@.len() ==> (#[trigger] items@[i] matches Json::Str(s) && s@
                == active@[i]@)),
{
    lemma_members(j);
    assert(number_at(j, 0, "version"@, version as int));
    assert(number_at(j, 1, "count"@, count as int));
    let list = j->Object_0@[2].1;
    let items = list->Array_0@;
    let view = crate::json::items_view(items);
    let texts = crate::transaction::texts_view(active@);
    assert(list@ == crate::transaction::text_array(texts));
    let out = texts.map_values(|s: Seq<char>| crate::json::JsonView::Str(s));
    assert(list@ == crate::json::JsonView::Array(out));
    assert(view == out);
    assert(view.len() == items.len() && out.len() == texts.len() && texts.len() == active@.len());
    assert forall|i: int| 0 <= i < items.len() implies (#[trigger] items[i] matches Json::Str(s)
        && s@ == active@[i]@) by {
        assert(view[i] == items[i]@);
        assert(out[i] == crate::json::JsonView::Str(texts[i]));
        assert(texts[i] == active@[i]@);
    }
}

/// A client that fell behind is told by how much.
pub proof fn a_slow_client_is_told(skipped: u64, j: Json)
    requires
        call_ensures(lagged, (skipped,), j),
    ensures
        size(j) == 1,
        counts(j, "skipped"@, skipped as int),
{
    lemma_members(j);
    assert(number_at(j, 0, "skipped"@, skipped as int));
}

} // verus!
