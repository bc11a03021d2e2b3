//! What clients are told: statuses, bodies and events field by field, and how queries are read.
use vstd::prelude::*;
use vstd::utf8::{decode_utf8, encode_utf8, valid_utf8};

use crate::events::{delta_shown, frame_text, hello_json, passes_spec, Delta};
use crate::http::{
    deltas_asked, export_status, find_byte, query_from, query_pair,
    decoded_part, prepared, route_spec, run_body, run_status, stats_body, unavailable, unescaped, Route,
};
use crate::json::JsonView;
use crate::namespace_laws::every_expression_is_rewritten;
use crate::python::json_laws::{says, width};
use crate::steps::lines_from;
use crate::steps_laws::lines_come_one_by_one;
use crate::transaction::{text_array, texts_view, Event, TxOk};
use crate::wrap::{parsed, text_of, wrapped, SExprView};

verus! {

/// Each request goes to the one handler of its method and path; any other is not found.
pub proof fn each_request_has_one_handler(method: Seq<char>, path: Seq<char>)
    ensures
        route_spec(method, path) == Route::Run <==> method == "POST"@ && path == "/run"@,
        route_spec(method, path) == Route::Events <==> method == "GET"@ && path == "/events"@,
        route_spec(method, path) == Route::Export <==> method == "GET"@ && path == "/export"@,
        route_spec(method, path) == Route::Stats <==> method == "GET"@ && path == "/stats"@,
{
    reveal_strlit("POST");
    reveal_strlit("GET");
    reveal_strlit("/run");
    reveal_strlit("/events");
    reveal_strlit("/export");
    reveal_strlit("/stats");
    assert("POST"@.len() != "GET"@.len());
    assert("/events"@[2] != "/export"@[2]);
    assert("/run"@.len() != "/stats"@.len());
    assert("/events"@.len() != "/stats"@.len());
    assert("/export"@.len() != "/stats"@.len());
}

proof fn lemma_two(j: JsonView)
    requires
        j is Object,
    ensures
        forall|i: int| #![trigger j->Object_0[i]]
            0 <= i < j->Object_0.len() ==> says(j, j->Object_0[i].0, j->Object_0[i].1),
{
    assert forall|i: int| #![trigger j->Object_0[i]] 0 <= i < j->Object_0.len() implies says(
        j,
        j->Object_0[i].0,
        j->Object_0[i].1,
    ) by {
        assert(j->Object_0.contains(j->Object_0[i]));
    }
}

/// A transaction that was committed is answered with success, its identifier, its count and its
/// version; one that was not, with the reason, and with a status that tells the client's fault from
/// the server's.
pub proof fn a_submission_is_answered_truly(ok: TxOk, e: String)
    ensures
        run_status(Some(Ok(ok))) == 200,
        ({
            let j = run_body(Some(Ok(ok)));
            &&& width(j) == 4
            &&& says(j, "ok"@, JsonView::Bool(true))
            &&& says(j, "tx"@, JsonView::Str(ok.tx@))
            &&& says(j, "count"@, JsonView::Int(ok.count as int))
            &&& says(j, "version"@, JsonView::Int(ok.version as int))
        }),
        run_status(Some(Err(e))) == 503 <==> encode_utf8("unavailable:"@).is_prefix_of(
            encode_utf8(e@),
        ),
        run_status(Some(Err(e))) == 422 <==> !encode_utf8("unavailable:"@).is_prefix_of(
            encode_utf8(e@),
        ),
        ({
            let j = run_body(Some(Err(e)));
            &&& width(j) == 2
            &&& says(j, "ok"@, JsonView::Bool(false))
            &&& says(j, "error"@, JsonView::Str(e@))
        }),
        run_status(None) == 500,
        says(run_body(None), "ok"@, JsonView::Bool(false)),
{
    lemma_unavailable(e@);
    let j = run_body(Some(Ok(ok)));
    lemma_two(j);
    assert(j->Object_0[0].0 == "ok"@ && j->Object_0[1].0 == "tx"@ && j->Object_0[2].0 == "count"@
        && j->Object_0[3].0 == "version"@);
    let f = run_body(Some(Err(e)));
    lemma_two(f);
    assert(f->Object_0[0].0 == "ok"@ && f->Object_0[1].0 == "error"@);
    let n = run_body(None);
    lemma_two(n);
    assert(n->Object_0[0].0 == "ok"@);
}

proof fn lemma_unavailable(e: Seq<char>)
    ensures
        unavailable(e) <==> encode_utf8("unavailable:"@).is_prefix_of(encode_utf8(e)),
{
    let p = encode_utf8("unavailable:"@);
    let b = encode_utf8(e);
    if p.len() <= b.len() {
        assert(b.take(p.len() as int) =~= b.subrange(0, p.len() as int));
    }
}

/// An export that fails is the server's fault exactly where its reason says that it is unavailable.
pub proof fn a_failed_export_is_answered_truly(e: Seq<char>)
    ensures
        export_status(e) == 503 <==> encode_utf8("unavailable:"@).is_prefix_of(encode_utf8(e)),
        export_status(e) == 400 <==> !encode_utf8("unavailable:"@).is_prefix_of(encode_utf8(e)),
{
    lemma_unavailable(e);
}

/// The gauges are shown each under its own name.
pub proof fn gauges_are_shown_by_name(version: u64, in_flight: usize, history_len: usize)
    ensures
        width(stats_body(version, in_flight, history_len)) == 3,
        says(
            stats_body(version, in_flight, history_len),
            "version"@,
            JsonView::Int(version as int),
        ),
        says(
            stats_body(version, in_flight, history_len),
            "in_flight"@,
            JsonView::Int(in_flight as int),
        ),
        says(
            stats_body(version, in_flight, history_len),
            "history_len"@,
            JsonView::Int(history_len as int),
        ),
{
    let j = stats_body(version, in_flight, history_len);
    lemma_two(j);
    assert(j->Object_0[0].0 == "version"@ && j->Object_0[1].0 == "in_flight"@
        && j->Object_0[2].0 == "history_len"@);
}

/// An event goes out under its name with each of its fields under its own name.
#[verifier::rlimit(40)]
pub proof fn every_field_of_an_event_is_sent(ev: Event)
    ensures
        ev matches Event::Tx { tx, count, version } ==> ev.name_text() == "tx"@ && width(
            ev.data_json(),
        ) == 3 && says(ev.data_json(), "tx"@, JsonView::Str(tx@)) && says(
            ev.data_json(),
            "count"@,
            JsonView::Int(count as int),
        ) && says(ev.data_json(), "version"@, JsonView::Int(version as int)),
        ev matches Event::Step { tx, exec_text, touched, new, us, version } ==> ev.name_text()
            == "step"@ && width(ev.data_json()) == 6 && says(
            ev.data_json(),
            "tx"@,
            JsonView::Str(tx@),
        ) && says(ev.data_json(), "exec"@, JsonView::Str(exec_text@)) && says(
            ev.data_json(),
            "touched"@,
            JsonView::Int(touched as int),
        ) && says(ev.data_json(), "new"@, JsonView::Bool(new)) && says(
            ev.data_json(),
            "us"@,
            JsonView::Int(us as int),
        ) && says(ev.data_json(), "version"@, JsonView::Int(version as int)),
        ev matches Event::Quiescent { tx, version } ==> ev.name_text() == "quiescent"@ && width(
            ev.data_json(),
        ) == 2 && says(ev.data_json(), "tx"@, JsonView::Str(tx@)) && says(
            ev.data_json(),
            "version"@,
            JsonView::Int(version as int),
        ),
        ev matches Event::Idle { version } ==> ev.name_text() == "idle"@ && width(ev.data_json())
            == 1 && says(ev.data_json(), "version"@, JsonView::Int(version as int)),
        ev matches Event::Delta { version, added, removed } ==> ev.name_text() == "delta"@ && width(
            ev.data_json(),
        ) == 3 && says(ev.data_json(), "version"@, JsonView::Int(version as int)) && says(
            ev.data_json(),
            "added"@,
            text_array(texts_view(added@)),
        ) && says(ev.data_json(), "removed"@, text_array(texts_view(removed@))),
        ev matches Event::Abort { tx, reason, version } ==> ev.name_text() == "abort"@ && width(
            ev.data_json(),
        ) == 3 && says(ev.data_json(), "tx"@, JsonView::Str(tx@)) && says(
            ev.data_json(),
            "reason"@,
            JsonView::Str(reason@),
        ) && says(ev.data_json(), "version"@, JsonView::Int(version as int)),
        ev matches Event::Budget { tx, steps, version } ==> ev.name_text() == "budget"@ && width(
            ev.data_json(),
        ) == 3 && says(ev.data_json(), "tx"@, JsonView::Str(tx@)) && says(
            ev.data_json(),
            "steps"@,
            JsonView::Int(steps as int),
        ) && says(ev.data_json(), "version"@, JsonView::Int(version as int)),
{
    let j = ev.data_json();
    lemma_two(j);
    let ms = j->Object_0;
    assert(ms[0].0 == ms[0].0);
    if ms.len() > 1 {
        assert(ms[1].0 == ms[1].0);
    }
    if ms.len() > 2 {
        assert(ms[2].0 == ms[2].0);
    }
    if ms.len() > 3 {
        assert(ms[3].0 == ms[3].0 && ms[4].0 == ms[4].0 && ms[5].0 == ms[5].0);
    }
}

/// Texts are sent one for one and in order.
pub proof fn texts_are_sent_one_for_one(v: Seq<Seq<char>>, i: int)
    ensures
        text_array(v) matches JsonView::Array(items) && items.len() == v.len() && (0 <= i < v.len()
            ==> items[i] == JsonView::Str(v[i])),
{
}

/// A new client is told the version, the number of expressions and the running transactions.
pub proof fn a_new_client_is_told_the_state(version: u64, count: usize, active: Seq<Seq<char>>)
    ensures
        width(hello_json(version, count, active)) == 3,
        says(hello_json(version, count, active), "version"@, JsonView::Int(version as int)),
        says(hello_json(version, count, active), "count"@, JsonView::Int(count as int)),
        says(hello_json(version, count, active), "active_txs"@, text_array(active)),
{
    let j = hello_json(version, count, active);
    lemma_two(j);
    assert(j->Object_0[0].0 == "version"@ && j->Object_0[1].0 == "count"@ && j->Object_0[2].0
        == "active_txs"@);
}

/// Read as lines, an event is its name, its data and an empty line that ends it.
pub proof fn an_event_is_three_lines(event: Seq<char>, data: Seq<char>)
    requires
        !event.contains('\n'),
        !data.contains('\n'),
        event.len() > 0 && event.last() != '\r',
        data.len() > 0 && data.last() != '\r',
    ensures
        lines_from(frame_text(event, data), 0) == seq![
            "event: "@ + event,
            "data: "@ + data,
            Seq::<char>::empty(),
        ],
{
    reveal_strlit("event: ");
    reveal_strlit("data: ");
    reveal_strlit("\ndata: ");
    reveal_strlit("\n\n");
    let a = "event: "@ + event;
    let b = "data: "@ + data;
    let none = Seq::<char>::empty();
    assert(frame_text(event, data) =~= a + seq!['\n'] + (b + seq!['\n'] + (none + seq!['\n']
        + none)));
    assert forall|i: int| 0 <= i < a.len() implies #[trigger] a[i] != '\n' by {
        if i >= 7 {
            assert(a[i] == event[i - 7]);
            assert(event.contains(event[i - 7]));
        }
    }
    assert forall|i: int| 0 <= i < b.len() implies #[trigger] b[i] != '\n' by {
        if i >= 6 {
            assert(b[i] == data[i - 6]);
            assert(data.contains(data[i - 6]));
        }
    }
    assert(a.last() == event.last() && b.last() == data.last());
    lines_come_one_by_one(a, b + seq!['\n'] + (none + seq!['\n'] + none));
    lines_come_one_by_one(b, none + seq!['\n'] + none);
    lines_come_one_by_one(none, none);
    assert(lines_from(frame_text(event, data), 0) =~= seq![a, b, none]);
}

/// Events of a transaction reach exactly the clients that follow no transaction or that one;
/// changes of the state reach exactly the clients that asked for them.
pub proof fn a_client_gets_what_it_asked_for(
    ev: Event,
    follows: Option<Seq<char>>,
    wants_deltas: bool,
)
    ensures
        ev is Delta ==> passes_spec(ev, follows, wants_deltas) == wants_deltas,
        ev is Idle ==> passes_spec(ev, follows, wants_deltas),
        ev matches Event::Tx { tx, .. } ==> passes_spec(ev, follows, wants_deltas) == (follows
            is None || follows == Some(tx@)),
        ev matches Event::Step { tx, .. } ==> passes_spec(ev, follows, wants_deltas) == (follows
            is None || follows == Some(tx@)),
        ev matches Event::Quiescent { tx, .. } ==> passes_spec(ev, follows, wants_deltas) == (
        follows is None || follows == Some(tx@)),
        ev matches Event::Abort { tx, .. } ==> passes_spec(ev, follows, wants_deltas) == (follows
            is None || follows == Some(tx@)),
        ev matches Event::Budget { tx, .. } ==> passes_spec(ev, follows, wants_deltas) == (follows
            is None || follows == Some(tx@)),
{
}

/// Where somebody asked for changes, every step to another version is shown, path by path: added is
/// what the newer state has and the older had not, removed what the older had and the newer has
/// not. Where nobody asked, nothing is worked out.
pub proof fn a_change_is_shown_path_by_path(
    older_version: u64,
    older: Map<Seq<u8>, u64>,
    delta_subs: usize,
    version: u64,
    newer: Map<Seq<u8>, u64>,
    r: Option<Delta>,
    p: Seq<u8>,
)
    requires
        delta_shown(older_version, older, delta_subs, version, newer, r),
    ensures
        r is Some <==> delta_subs > 0 && version != older_version,
        r matches Some(d) ==> (d.added@.contains_key(p) <==> newer.contains_key(p)
            && !older.contains_key(p)),
        r matches Some(d) ==> (d.removed@.contains_key(p) <==> older.contains_key(p)
            && !newer.contains_key(p)),
        r matches Some(d) ==> (d.added@.contains_key(p) ==> d.added@[p] == newer[p]),
{
}

/// Decoding goes part by part: what follows a part that decodes is decoded on its own.
pub proof fn parts_are_decoded_one_by_one(a: Seq<u8>, b: Seq<u8>)
    requires
        unescaped(a, 0) is Some,
    ensures
        unescaped(a + b, 0) == match unescaped(b, 0) {
            Some(y) => Some(unescaped(a, 0)->0 + y),
            None => None,
        },
{
    lemma_parts(a, b, 0);
}

proof fn lemma_rest(a: Seq<u8>, b: Seq<u8>, i: int)
    requires
        0 <= i <= b.len(),
    ensures
        unescaped(a + b, a.len() + i) == unescaped(b, i),
    decreases b.len() - i,
{
    let s = a + b;
    let n = a.len() as int;
    if i < b.len() {
        assert(s[n + i] == b[i]);
        if b[i] == 37 {
            if i + 2 < b.len() {
                assert(s[n + i + 1] == b[i + 1] && s[n + i + 2] == b[i + 2]);
                lemma_rest(a, b, i + 3);
            }
        } else {
            lemma_rest(a, b, i + 1);
        }
    }
}

proof fn lemma_parts(a: Seq<u8>, b: Seq<u8>, i: int)
    requires
        0 <= i <= a.len(),
        unescaped(a, i) is Some,
    ensures
        unescaped(a + b, i) == match unescaped(b, 0) {
            Some(y) => Some(unescaped(a, i)->0 + y),
            None => None,
        },
    decreases a.len() - i,
{
    let s = a + b;
    if i < a.len() {
        assert(s[i] == a[i]);
        let step = if a[i] == 37 {
            3int
        } else {
            1int
        };
        if a[i] == 37 {
            assert(s[i + 1] == a[i + 1] && s[i + 2] == a[i + 2]);
        }
        lemma_parts(a, b, i + step);
        if let Some(y) = unescaped(b, 0) {
            let rest = unescaped(a, i + step)->0;
            let x = unescaped(a, i)->0[0];
            assert(seq![x] + (rest + y) =~= (seq![x] + rest) + y);
        }
    } else {
        lemma_rest(a, b, 0);
        assert(unescaped(a, i)->0 =~= seq![]);
        if let Some(y) = unescaped(b, 0) {
            assert(seq![] + y =~= y);
        }
    }
}

/// A byte stands for itself; `+` stands for a space; `%` and two hexadecimal digits of either case
/// stand for the byte that they write; `%` before anything else is refused.
pub proof fn bytes_are_decoded_by_what_they_stand_for(c: u8, x: u8, upper: bool)
    ensures
        c != 37 && c != 43 ==> unescaped(seq![c], 0) == Some(seq![c]),
        unescaped(seq![43u8], 0) == Some(seq![32u8]),
        ({
            let ten: int = if upper {
                65
            } else {
                97
            };
            let hi = (x / 16) as int;
            let lo = (x % 16) as int;
            let a = if hi < 10 {
                48 + hi
            } else {
                ten + hi - 10
            };
            let b = if lo < 10 {
                48 + lo
            } else {
                ten + lo - 10
            };
            unescaped(seq![37u8, a as u8, b as u8], 0) == Some(seq![x])
        }),
        unescaped(seq![37u8], 0) is None,
        unescaped(seq![37u8, c], 0) is None,
        unescaped(Seq::<u8>::empty(), 0) == Some(Seq::<u8>::empty()),
        !(48 <= c <= 57 || 65 <= c <= 70 || 97 <= c <= 102) ==> unescaped(seq![37u8, 48u8, c], 0)
            is None,
{
    reveal_with_fuel(unescaped, 3);
    assert(seq![c] + Seq::<u8>::empty() =~= seq![c]);
    assert(seq![32u8] + Seq::<u8>::empty() =~= seq![32u8]);
    assert(seq![x] + Seq::<u8>::empty() =~= seq![x]);
}

proof fn lemma_found(b: Seq<u8>, x: u8, i: int, e: int)
    requires
        0 <= i <= e <= b.len(),
        forall|j: int| i <= j < e ==> #[trigger] b[j] != x,
        e < b.len() ==> b[e] == x,
    ensures
        find_byte(b, x, i) == e,
    decreases e - i,
{
    if i < e {
        assert(b[i] != x);
        lemma_found(b, x, i + 1, e);
    }
}

/// A part `key=value` of a query names a value: the key is what stands before the first `=`, the
/// value all that stands behind it. A part without `=` names the empty value.
pub proof fn a_query_part_names_a_value(key: Seq<u8>, value: Seq<u8>)
    requires
        !key.contains(61),
        key.len() > 0,
    ensures
        query_pair(key + seq![61u8] + value) == match (decoded_part(key), decoded_part(value)) {
            (Some(k), Some(v)) => Some((k, v)),
            _ => None,
        },
        decoded_part(key) matches Some(k) ==> query_pair(key) == Some((k, Seq::<char>::empty())),
{
    let p = key + seq![61u8] + value;
    let n = key.len() as int;
    assert forall|j: int| 0 <= j < n implies #[trigger] p[j] != 61 by {
        assert(p[j] == key[j]);
        assert(key.contains(key[j]));
    }
    lemma_found(p, 61, 0, n);
    assert(p.take(n) =~= key);
    assert(p.skip(n + 1) =~= value);
    assert forall|j: int| 0 <= j < n implies #[trigger] key[j] != 61 by {
        assert(key.contains(key[j]));
    }
    lemma_found(key, 61, 0, n);
    assert(key.take(n) =~= key);
    let none = Seq::<u8>::empty();
    assert(unescaped(none, 0) == Some(none));
    vstd::utf8::encode_utf8_decode_utf8(Seq::<char>::empty());
    assert(encode_utf8(Seq::<char>::empty()) =~= none);
}

/// A query is read part by part, and the last part that names a key gives its value.
pub proof fn a_query_is_read_part_by_part(
    part: Seq<u8>,
    rest: Seq<u8>,
    table: Map<Seq<char>, Seq<char>>,
)
    requires
        !part.contains(38),
    ensures
        query_from(part, 0, table) == match query_pair(part) {
            Some((k, v)) => table.insert(k, v),
            None => table,
        },
        query_from(part + seq![38u8] + rest, 0, table) == query_from(
            rest,
            0,
            query_from(part, 0, table),
        ),
{
    let n = part.len() as int;
    let s = part + seq![38u8] + rest;
    assert forall|j: int| 0 <= j < n implies #[trigger] part[j] != 38 by {
        assert(part.contains(part[j]));
    }
    lemma_found(part, 38, 0, n);
    assert(part.subrange(0, n) =~= part);
    assert forall|j: int| 0 <= j < n implies #[trigger] s[j] != 38 by {
        assert(s[j] == part[j]);
    }
    lemma_found(s, 38, 0, n);
    assert(s.subrange(0, n) =~= part);
    assert(s =~= (part + seq![38u8]) + rest);
    lemma_query_rest(part + seq![38u8], rest, 0, query_from(part, 0, table));
}

proof fn lemma_find_rest(a: Seq<u8>, b: Seq<u8>, x: u8, i: int)
    requires
        0 <= i <= b.len(),
    ensures
        find_byte(a + b, x, a.len() + i) == a.len() + find_byte(b, x, i),
        i <= find_byte(b, x, i) <= b.len(),
    decreases b.len() - i,
{
    if i < b.len() {
        assert((a + b)[a.len() + i] == b[i]);
        if b[i] != x {
            lemma_find_rest(a, b, x, i + 1);
        }
    }
}

proof fn lemma_query_rest(a: Seq<u8>, b: Seq<u8>, i: int, table: Map<Seq<char>, Seq<char>>)
    requires
        0 <= i <= b.len(),
    ensures
        query_from(a + b, a.len() + i, table) == query_from(b, i, table),
    decreases b.len() - i,
{
    lemma_find_rest(a, b, 38, i);
    let n = a.len() as int;
    let end = find_byte(b, 38, i);
    assert((a + b).subrange(n + i, n + end) =~= b.subrange(i, end));
    if end < b.len() {
        let next = match query_pair(b.subrange(i, end)) {
            Some((k, v)) => table.insert(k, v),
            None => table,
        };
        lemma_query_rest(a, b, end + 1, next);
    }
}

/// Changes are asked for by `deltas=true` and by `deltas=1`, and by nothing else.
pub proof fn deltas_are_asked_for_by_name(query: Map<Seq<char>, Seq<char>>)
    ensures
        !query.contains_key("deltas"@) ==> !deltas_asked(query),
        query.contains_key("deltas"@) ==> (deltas_asked(query) <==> query["deltas"@] == "true"@
            || query["deltas"@] == "1"@),
{
}

/// A body is taken in as the transaction that it writes, wrapped for its identifier. One that is no
/// text, and one that cannot be read, are refused with a reason.
pub proof fn a_body_is_taken_in_wrapped(body: Seq<u8>, id: Seq<char>)
    ensures
        !valid_utf8(body) ==> prepared(body, id) == Err::<Seq<char>, Seq<char>>(
            "body must be UTF-8 s-expression text"@,
        ),
        valid_utf8(body) ==> match parsed(decode_utf8(body)) {
            Ok(es) => prepared(body, id) == Ok::<Seq<char>, Seq<char>>(
                es.map_values(|e: SExprView| text_of(wrapped(e, id)) + seq!['\n']).flatten(),
            ),
            Err(e) => prepared(body, id) == Err::<Seq<char>, Seq<char>>("parse error: "@ + e),
        },
{
    if valid_utf8(body) {
        match parsed(decode_utf8(body)) {
            Ok(es) => every_expression_is_rewritten(es, id),
            Err(_) => {},
        }
    }
}

} // verus!
