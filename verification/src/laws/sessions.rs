//! Sessions: what goes out to a worker, what is understood of its answer, and where that is kept.
use vstd::prelude::*;

use crate::expr::{decode, encodable, Decoded, Expr};
use crate::json::Json;
use crate::python::laws::{
    all_finite, command_bytes_roundtrip, is_command, is_result, is_value, json_roundtrip,
    result_bytes_roundtrip, value_bytes_roundtrip,
};
use crate::python::manager::{
    answer, command_json, request, response_size, result_from_json, value_from_json, value_json,
    value_to_json, PyIpcError, PySessionManager,
};
use crate::python::parse::{py_command_from_expr, py_result_from_expr, py_value_from_expr};
use crate::python::protocol::{
    command_tree, py_command_to_expr_bytes, py_result_to_expr_bytes, py_value_to_expr_bytes,
    result_tree, value_tree, PyCommand, PyResult, PyValue,
};

verus! {

/// Whether the member at a place has that name and holds that text.
pub open spec fn text_at(j: Json, k: int, name: Seq<char>, text: Seq<char>) -> bool {
    j matches Json::Object(ms) && 0 <= k < ms@.len() && ms@[k].0@ == name && (
    ms@[k].1 matches Json::Str(s) && s@ == text)
}

/// Whether a member of that name holds that text.
pub open spec fn tells(j: Json, name: Seq<char>, text: Seq<char>) -> bool {
    exists|k: int| #[trigger] text_at(j, k, name, text)
}

/// Whether the member at a place has that name and holds that value as it goes out.
pub open spec fn value_at(j: Json, k: int, name: Seq<char>, v: PyValue) -> bool {
    j matches Json::Object(ms) && 0 <= k < ms@.len() && ms@[k].0@ == name && ms@[k].1@
        == value_to_json(v@)
}

/// Whether a member of that name holds that value as it goes out.
pub open spec fn carries(j: Json, name: Seq<char>, v: PyValue) -> bool {
    exists|k: int| #[trigger] value_at(j, k, name, v)
}

/// Whether the member at a place has that name and holds those values as they go out, in order.
pub open spec fn values_at(j: Json, k: int, name: Seq<char>, vs: Seq<PyValue>) -> bool {
    j matches Json::Object(ms) && 0 <= k < ms@.len() && ms@[k].0@ == name && (
    ms@[k].1 matches Json::Array(items) && items@.len() == vs.len() && forall|i: int|
        0 <= i < vs.len() ==> (#[trigger] items@[i])@ == value_to_json(vs[i]@))
}

/// Whether a member of that name holds those values as they go out, in order.
pub open spec fn carries_all(j: Json, name: Seq<char>, vs: Seq<PyValue>) -> bool {
    exists|k: int| #[trigger] values_at(j, k, name, vs)
}

/// Whether the member at a place has that name and holds those entries as they go out, in order:
/// each a pair of its name and its value.
pub open spec fn entries_at(j: Json, k: int, name: Seq<char>, es: Seq<(String, PyValue)>) -> bool {
    j matches Json::Object(ms) && 0 <= k < ms@.len() && ms@[k].0@ == name && (
    ms@[k].1 matches Json::Array(items) && items@.len() == es.len() && forall|i: int|
        0 <= i < es.len() ==> (#[trigger] items@[i] matches Json::Array(pair) && pair@.len() == 2
            && (pair@[0] matches Json::Str(s) && s@ == es[i].0@) && pair@[1]@ == value_to_json(
            es[i].1@,
        )))
}

/// Whether a member of that name holds those entries as they go out, in order.
pub open spec fn carries_entries(j: Json, name: Seq<char>, es: Seq<(String, PyValue)>) -> bool {
    exists|k: int| #[trigger] entries_at(j, k, name, es)
}

/// How many members an object has.
pub open spec fn size(j: Json) -> nat {
    match j {
        Json::Object(ms) => ms@.len(),
        _ => 0,
    }
}

/// The members of an object, one for one.
pub(crate) proof fn lemma_members(j: Json)
    requires
        j@ is Object,
    ensures
        j matches Json::Object(ms) && ms@.len() == j@->Object_0.len() && forall|k: int|
            0 <= k < ms@.len() ==> (#[trigger] ms@[k]).0@ == j@->Object_0[k].0 && ms@[k].1@
                == j@->Object_0[k].1,
{
    let ms = j->Object_0@;
    let view = crate::json::members_view(ms);
    assert forall|k: int| 0 <= k < ms.len() implies (#[trigger] ms[k]).0@ == j@->Object_0[k].0
        && ms[k].1@ == j@->Object_0[k].1 by {
        assert(view[k] == (ms[k].0@, ms[k].1@));
    }
}

/// A command of texts goes out with its name and with each of its fields under its own name, and
/// with nothing else.
pub proof fn a_command_of_texts_goes_out_whole(c: &PyCommand, r: Result<Json, PyIpcError>)
    requires
        call_ensures(command_json, (c,), r),
    ensures
        r is Ok,
        *c matches PyCommand::Import { req_id, module } ==> ({
            let j = r->Ok_0;
            size(j) == 3 && tells(j, "command"@, "import"@) && tells(j, "req_id"@, req_id@)
                && tells(j, "module"@, module@)
        }),
        *c matches PyCommand::ImportFile { req_id, module, path } ==> ({
            let j = r->Ok_0;
            size(j) == 4 && tells(j, "command"@, "import-file"@) && tells(j, "req_id"@, req_id@)
                && tells(j, "module"@, module@) && tells(j, "path"@, path@)
        }),
        *c matches PyCommand::GetVariable { req_id, name } ==> ({
            let j = r->Ok_0;
            size(j) == 3 && tells(j, "command"@, "get-variable"@) && tells(j, "req_id"@, req_id@)
                && tells(j, "name"@, name@)
        }),
        *c matches PyCommand::DropObject { req_id, handle } ==> ({
            let j = r->Ok_0;
            size(j) == 3 && tells(j, "command"@, "drop-object"@) && tells(j, "req_id"@, req_id@)
                && tells(j, "handle"@, handle@)
        }),
{
    let j = r->Ok_0;
    lemma_members(j);
    match *c {
        PyCommand::Import { req_id, module } => {
            assert(text_at(j, 0, "command"@, "import"@));
            assert(text_at(j, 1, "req_id"@, req_id@));
            assert(text_at(j, 2, "module"@, module@));
        },
        PyCommand::ImportFile { req_id, module, path } => {
            assert(text_at(j, 0, "command"@, "import-file"@));
            assert(text_at(j, 1, "req_id"@, req_id@));
            assert(text_at(j, 2, "module"@, module@));
            assert(text_at(j, 3, "path"@, path@));
        },
        PyCommand::GetVariable { req_id, name } => {
            assert(text_at(j, 0, "command"@, "get-variable"@));
            assert(text_at(j, 1, "req_id"@, req_id@));
            assert(text_at(j, 2, "name"@, name@));
        },
        PyCommand::DropObject { req_id, handle } => {
            assert(text_at(j, 0, "command"@, "drop-object"@));
            assert(text_at(j, 1, "req_id"@, req_id@));
            assert(text_at(j, 2, "handle"@, handle@));
        },
        _ => {},
    }
}

/// A command with a value goes out with its name and with each of its fields under its own name,
/// and with nothing else.
pub proof fn a_command_of_a_value_goes_out_whole(c: &PyCommand, r: Result<Json, PyIpcError>)
    requires
        call_ensures(command_json, (c,), r),
    ensures
        r is Ok,
        *c matches PyCommand::GetAttr { req_id, target, attr } ==> ({
            let j = r->Ok_0;
            size(j) == 4 && tells(j, "command"@, "getattr"@) && tells(j, "req_id"@, req_id@)
                && carries(j, "target"@, target) && tells(j, "attr"@, attr@)
        }),
        *c matches PyCommand::SetVariable { req_id, name, value } ==> ({
            let j = r->Ok_0;
            size(j) == 4 && tells(j, "command"@, "set-variable"@) && tells(j, "req_id"@, req_id@)
                && tells(j, "name"@, name@) && carries(j, "value"@, value)
        }),
{
    let j = r->Ok_0;
    lemma_members(j);
    match *c {
        PyCommand::GetAttr { req_id, target, attr } => {
            assert(text_at(j, 0, "command"@, "getattr"@));
            assert(text_at(j, 1, "req_id"@, req_id@));
            assert(value_at(j, 2, "target"@, target));
            assert(text_at(j, 3, "attr"@, attr@));
        },
        PyCommand::SetVariable { req_id, name, value } => {
            assert(text_at(j, 0, "command"@, "set-variable"@));
            assert(text_at(j, 1, "req_id"@, req_id@));
            assert(text_at(j, 2, "name"@, name@));
            assert(value_at(j, 3, "value"@, value));
        },
        _ => {},
    }
}

/// A call goes out with its name, its module and its function, each under its own name, and with
/// all of its arguments in order, and with nothing else.
pub proof fn a_call_goes_out_whole(c: &PyCommand, r: Result<Json, PyIpcError>)
    requires
        call_ensures(command_json, (c,), r),
    ensures
        r is Ok,
        *c matches PyCommand::Call { req_id, module, function, args, kwargs } ==> ({
            let j = r->Ok_0;
            size(j) == 6 && tells(j, "command"@, "call"@) && tells(j, "req_id"@, req_id@) && tells(
                j,
                "module"@,
                module@,
            ) && tells(j, "function"@, function@) && carries_all(j, "args"@, args@)
                && carries_entries(j, "kwargs"@, kwargs@)
        }),
{
    let j = r->Ok_0;
    lemma_members(j);
    match *c {
        PyCommand::Call { req_id, module, function, args, kwargs } => {
            assert(text_at(j, 0, "command"@, "call"@));
            assert(text_at(j, 1, "req_id"@, req_id@));
            assert(text_at(j, 2, "module"@, module@));
            assert(text_at(j, 3, "function"@, function@));
            assert(values_at(j, 4, "args"@, args@)) by {
                lemma_values(j->Object_0@[4].1, args@);
            }
            assert(entries_at(j, 5, "kwargs"@, kwargs@)) by {
                lemma_entries(j->Object_0@[5].1, kwargs@);
            }
        },
        _ => {},
    }
}

/// A call of a method goes out with its name, its target and its method, each under its own name,
/// and with all of its arguments in order, and with nothing else.
pub proof fn a_method_call_goes_out_whole(c: &PyCommand, r: Result<Json, PyIpcError>)
    requires
        call_ensures(command_json, (c,), r),
    ensures
        r is Ok,
        *c matches PyCommand::CallMethod { req_id, target, method, args, kwargs } ==> ({
            let j = r->Ok_0;
            size(j) == 6 && tells(j, "command"@, "call-method"@) && tells(j, "req_id"@, req_id@)
                && carries(j, "target"@, target) && tells(j, "method"@, method@) && carries_all(
                j,
                "args"@,
                args@,
            ) && carries_entries(j, "kwargs"@, kwargs@)
        }),
{
    let j = r->Ok_0;
    lemma_members(j);
    match *c {
        PyCommand::CallMethod { req_id, target, method, args, kwargs } => {
            assert(text_at(j, 0, "command"@, "call-method"@));
            assert(text_at(j, 1, "req_id"@, req_id@));
            assert(value_at(j, 2, "target"@, target));
            assert(text_at(j, 3, "method"@, method@));
            assert(values_at(j, 4, "args"@, args@)) by {
                lemma_values(j->Object_0@[4].1, args@);
            }
            assert(entries_at(j, 5, "kwargs"@, kwargs@)) by {
                lemma_entries(j->Object_0@[5].1, kwargs@);
            }
        },
        _ => {},
    }
}

proof fn lemma_values(j: Json, vs: Seq<PyValue>)
    requires
        j@ == crate::json::JsonView::Array(
            crate::python::manager::values_to_json(crate::python::protocol::values_view(vs)),
        ),
    ensures
        j matches Json::Array(items) && items@.len() == vs.len() && forall|i: int|
            0 <= i < vs.len() ==> (#[trigger] items@[i])@ == value_to_json(vs[i]@),
{
    let items = j->Array_0@;
    let view = crate::json::items_view(items);
    let out = crate::python::manager::values_to_json(crate::python::protocol::values_view(vs));
    assert(view == out);
    assert forall|i: int| 0 <= i < vs.len() implies (#[trigger] items[i])@ == value_to_json(
        vs[i]@,
    ) by {
        assert(view[i] == items[i]@);
        assert(out[i] == value_to_json(vs[i]@));
    }
}

proof fn lemma_entries(j: Json, es: Seq<(String, PyValue)>)
    requires
        j@ == crate::json::JsonView::Array(
            crate::python::manager::entries_to_json(crate::python::protocol::entries_view(es)),
        ),
    ensures
        j matches Json::Array(items) && items@.len() == es.len() && forall|i: int|
            0 <= i < es.len() ==> (#[trigger] items@[i] matches Json::Array(pair) && pair@.len()
                == 2 && (pair@[0] matches Json::Str(s) && s@ == es[i].0@) && pair@[1]@
                == value_to_json(es[i].1@)),
{
    let items = j->Array_0@;
    let view = crate::json::items_view(items);
    let out = crate::python::manager::entries_to_json(crate::python::protocol::entries_view(es));
    assert(view == out);
    assert forall|i: int| 0 <= i < es.len() implies (#[trigger] items[i] matches Json::Array(pair)
        && pair@.len() == 2 && (pair@[0] matches Json::Str(s) && s@ == es[i].0@) && pair@[1]@
        == value_to_json(es[i].1@)) by {
        assert(view[i] == items[i]@);
        let pair = seq![
            crate::json::JsonView::Str(es[i].0@),
            value_to_json(es[i].1@),
        ];
        assert(out[i] == crate::json::JsonView::Array(pair));
        let got = items[i]->Array_0@;
        assert(crate::json::items_view(got) == pair);
        assert(crate::json::items_view(got)[0] == got[0]@);
        assert(crate::json::items_view(got)[1] == got[1]@);
    }
}

/// A simple value goes out as its kind and itself.
pub proof fn a_value_goes_out_with_its_kind(v: &PyValue, j: Json)
    requires
        call_ensures(value_json, (v,), j),
    ensures
        size(j) == 2,
        *v is NoneValue ==> tells(j, "type"@, "none"@),
        *v matches PyValue::Bool(b) ==> tells(j, "type"@, "bool"@) && (j matches Json::Object(ms)
            && ms@[1].0@ == "value"@ && ms@[1].1 == Json::Bool(b)),
        *v matches PyValue::Int(n) ==> tells(j, "type"@, "int"@) && (j matches Json::Object(ms)
            && ms@[1].0@ == "value"@ && (ms@[1].1 matches Json::Int(i) && i == n)),
        *v is Float ==> tells(j, "type"@, "float"@),
        *v matches PyValue::Str(s) ==> tells(j, "type"@, "str"@) && tells(j, "value"@, s@),
        *v matches PyValue::Handle(s) ==> tells(j, "type"@, "handle"@) && tells(j, "value"@, s@),
        *v matches PyValue::List(vs) ==> tells(j, "type"@, "list"@) && carries_all(
            j,
            "value"@,
            vs@,
        ),
        *v matches PyValue::Dict(es) ==> tells(j, "type"@, "dict"@) && carries_entries(
            j,
            "value"@,
            es@,
        ),
{
    lemma_members(j);
    match *v {
        PyValue::NoneValue => {
            assert(text_at(j, 0, "type"@, "none"@));
        },
        PyValue::Bool(_) => {
            assert(text_at(j, 0, "type"@, "bool"@));
        },
        PyValue::Int(_) => {
            assert(text_at(j, 0, "type"@, "int"@));
        },
        PyValue::Float(_) => {
            assert(text_at(j, 0, "type"@, "float"@));
        },
        PyValue::Str(s) => {
            assert(text_at(j, 0, "type"@, "str"@));
            assert(text_at(j, 1, "value"@, s@));
        },
        PyValue::Handle(s) => {
            assert(text_at(j, 0, "type"@, "handle"@));
            assert(text_at(j, 1, "value"@, s@));
        },
        PyValue::List(vs) => {
            assert(text_at(j, 0, "type"@, "list"@));
            assert(values_at(j, 1, "value"@, vs@)) by {
                lemma_values(j->Object_0@[1].1, vs@);
            }
        },
        PyValue::Dict(es) => {
            assert(text_at(j, 0, "type"@, "dict"@));
            assert(entries_at(j, 1, "value"@, es@)) by {
                lemma_entries(j->Object_0@[1].1, es@);
            }
        },
    }
}

/// A value that goes out and comes back is the same.
pub proof fn a_value_comes_back(v: &PyValue, j: &Json, r: Result<PyValue, PyIpcError>)
    requires
        call_ensures(value_json, (v,), *j),
        call_ensures(value_from_json, (j,), r),
        is_value(v@),
        all_finite(v@),
    ensures
        r matches Ok(w) && w@ == v@,
{
    json_roundtrip(v@);
}

/// A value that is written as an expression reads back as the same.
pub proof fn a_written_value_reads_back(
    v: &PyValue,
    bytes: &[u8],
    w: Result<Vec<u8>, std::io::Error>,
    d: Decoded,
    e: &Expr,
    r: Result<PyValue, String>,
)
    requires
        call_ensures(py_value_to_expr_bytes, (v,), w),
        w matches Ok(b) && b@ == bytes@,
        call_ensures(decode, (bytes, 0), d),
        d matches Decoded::Tree(t, _) && t@ == e@,
        call_ensures(py_value_from_expr, (e,), r),
        is_value(v@),
        encodable(value_tree(v@)),
    ensures
        r matches Ok(back) && back@ == v@,
{
    value_bytes_roundtrip(v@);
}

/// A command that is written as an expression reads back as the same.
pub proof fn a_written_command_reads_back(
    c: &PyCommand,
    bytes: &[u8],
    w: Result<Vec<u8>, std::io::Error>,
    d: Decoded,
    e: &Expr,
    r: Result<PyCommand, String>,
)
    requires
        call_ensures(py_command_to_expr_bytes, (c,), w),
        w matches Ok(b) && b@ == bytes@,
        call_ensures(decode, (bytes, 0), d),
        d matches Decoded::Tree(t, _) && t@ == e@,
        call_ensures(py_command_from_expr, (e,), r),
        is_command(c@),
        encodable(command_tree(c@)),
    ensures
        r matches Ok(back) && back@ == c@,
{
    command_bytes_roundtrip(c@);
}

/// A result that is written as an expression reads back as the same.
pub proof fn a_written_result_reads_back(
    v: &PyResult,
    bytes: &[u8],
    w: Result<Vec<u8>, std::io::Error>,
    d: Decoded,
    e: &Expr,
    r: Result<PyResult, String>,
)
    requires
        call_ensures(py_result_to_expr_bytes, (v,), w),
        w matches Ok(b) && b@ == bytes@,
        call_ensures(decode, (bytes, 0), d),
        d matches Decoded::Tree(t, _) && t@ == e@,
        call_ensures(py_result_from_expr, (e,), r),
        is_result(v@),
        encodable(result_tree(v@)),
    ensures
        r matches Ok(back) && back@ == v@,
{
    result_bytes_roundtrip(v@);
}

/// The length before an answer is read with its highest byte first, and refused above 64 MiB.
pub proof fn the_length_of_an_answer_is_read(header: [u8; 4], r: Result<usize, PyIpcError>)
    requires
        call_ensures(response_size, (header,), r),
    ensures
        ({
            let n = header@[0] * 16777216 + header@[1] * 65536 + header@[2] * 256 + header@[3];
            &&& r is Ok <==> n <= 67108864
            &&& r matches Ok(size) ==> size == n
            &&& r matches Err(e) ==> e is Protocol
        }),
{
    crate::text_laws::lengths_are_big_endian(0, header@);
    let v = r->Err_0@;
}

/// What an answer brings is kept under the request of its command and read back from there;
/// nothing that was kept under another is touched, and what is not understood is not kept.
pub proof fn an_answer_is_kept_for_its_request(
    m: &mut PySessionManager,
    command: &PyCommand,
    body: &[u8],
    r: Result<(), PyIpcError>,
    a: Result<PyResult, PyIpcError>,
    other: Seq<char>,
)
    requires
        call_ensures(PySessionManager::take_answer, (m, command, body), r),
        call_ensures(answer, (body,), a),
    ensures
        r is Ok <==> a is Ok,
        ({
            let id = crate::python::manager::req_id_of(command@);
            &&& a matches Ok(v) ==> final(m).results@.contains_key(id) && final(m).results@[id]@
                == v@
            &&& a is Err ==> final(m).results@ == old(m).results@
            &&& other != id ==> final(m).results@.contains_key(other) == old(
                m,
            ).results@.contains_key(other) && (old(m).results@.contains_key(other) ==> final(
                m).results@[other] == old(m).results@[other])
        }),
        final(m).workers == old(m).workers,
{
}

/// A query is answered with what is kept for its request, or with a failure that names it.
pub proof fn a_query_is_answered_from_what_is_kept(
    m: &PySessionManager,
    session: &str,
    query: &PyCommand,
    r: Result<PyResult, PyIpcError>,
)
    requires
        call_ensures(PySessionManager::execute_source, (m, session, query), r),
    ensures
        ({
            let id = crate::python::manager::req_id_of(query@);
            &&& r is Ok <==> m.results@.contains_key(id)
            &&& r matches Ok(v) ==> v@ == m.results@[id]@
            &&& r matches Err(e) ==> (e matches PyIpcError::MissingResult(t) && t@ == id)
        }),
{
    if r is Err {
        let v = r->Err_0@;
    }
}

/// A request is the length of its command's bytes, with the highest byte first, and those bytes.
pub proof fn a_request_is_framed(c: &PyCommand, r: Result<Vec<u8>, PyIpcError>)
    requires
        call_ensures(request, (c,), r),
    ensures
        r matches Ok(f) ==> f@.len() >= 4 && f@[0] * 16777216 + f@[1] * 65536 + f@[2] * 256 + f@[3]
            == f@.len() - 4 && crate::json::json_bytes(
            crate::json::writable(crate::python::manager::command_to_json(c@)),
        ) == Ok::<Seq<u8>, Seq<char>>(f@.skip(4)),
{
    crate::python::frame_laws::a_request_carries_its_command(c@);
}

/// An answer of success carries its value, and one of failure what went wrong.
pub proof fn answers_are_understood(
    j: &Json,
    v: &PyValue,
    x: Json,
    r: Result<PyResult, PyIpcError>,
)
    requires
        call_ensures(result_from_json, (j,), r),
        call_ensures(value_json, (v,), x),
        *j matches Json::Object(ms) && ms@.len() == 2 && ms@[0].0@ == "status"@ && (
        ms@[0].1 matches Json::Str(s) && s@ == "ok"@) && ms@[1].0@ == "result"@ && ms@[1].1@ == x@,
        is_value(v@),
        all_finite(v@),
    ensures
        r matches Ok(PyResult::Success(w)) && w@ == v@,
{
    lemma_is_object(*j);
    let members = j@->Object_0;
    assert(members.len() == 2);
    reveal_strlit("status");
    reveal_strlit("result");
    assert("status"@[0] == 's' && "result"@[0] == 'r');
    assert(members[0] == ("status"@, crate::json::JsonView::Str("ok"@)));
    assert(members[1] == ("result"@, value_to_json(v@)));
    crate::python::json_laws::members_are_found_by_name(members, "status"@, 0);
    crate::python::json_laws::members_are_found_by_name(members, "result"@, 1);
    json_roundtrip(v@);
}

proof fn lemma_is_object(j: Json)
    requires
        j is Object,
    ensures
        j@ is Object,
        j@->Object_0.len() == j->Object_0@.len(),
        forall|k: int|
            0 <= k < j->Object_0@.len() ==> #[trigger] j@->Object_0[k] == (
                j->Object_0@[k].0@,
                j->Object_0@[k].1@,
            ),
{
    let ms = j->Object_0@;
    let view = crate::json::members_view(ms);
    assert forall|k: int| 0 <= k < ms.len() implies #[trigger] j@->Object_0[k] == (
        ms[k].0@,
        ms[k].1@,
    ) by {
        assert(view[k] == (ms[k].0@, ms[k].1@));
    }
}

/// Each kind of failure is told in its own words, with its detail.
pub proof fn failures_are_told_with_their_detail(e: &PyIpcError, r: String)
    requires
        call_ensures(PyIpcError::message, (e,), r),
    ensures
        *e matches PyIpcError::Io(t) ==> r@ == "python worker I/O error: "@ + t@,
        *e matches PyIpcError::Json(t) ==> r@ == "python worker JSON error: "@ + t@,
        *e matches PyIpcError::Protocol(t) ==> r@ == "invalid python worker response: "@ + t@,
        *e matches PyIpcError::WorkerFailed(t) ==> r@ == "python worker failed: "@ + t@,
        *e matches PyIpcError::MissingResult(t) ==> r@ == "no cached Python result for request "@
            + crate::text::quoted_text(t@),
{
    let v = e@;
}

} // verus!
