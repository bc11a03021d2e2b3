//! What goes over the wire to a worker and back: frames announce their length, values that cannot
//! be written are left out, and values of the wrong kind are refused with a reason.
use vstd::prelude::*;
use vstd::utf8::encode_utf8;

use crate::float::{is_finite_float, json_number};
use crate::json::{json_bytes, json_read, member, writable, JsonView};
use crate::python::json_laws::members_are_found_by_name;
use crate::python::manager::{
    answer_of, command_to_json, entries_of_json, entry_of_json, frame, req_id_of, request_of,
    result_of_json, value_of_json, values_of_json, PyIpcError, PyIpcErrorView, MAX_FRAME_SIZE,
};
use crate::python::protocol::{PyCommandView, PyResultView, PyValueView};
use crate::text::quoted_text;

verus! {

/// A frame is the length of what it carries in four bytes, the highest first, and then that.
pub proof fn a_frame_announces_its_length(payload: Seq<u8>)
    requires
        payload.len() <= u32::MAX,
    ensures
        ({
            let f = frame(payload);
            &&& f.len() == payload.len() + 4
            &&& f[0] * 16777216 + f[1] * 65536 + f[2] * 256 + f[3] == payload.len()
            &&& f.skip(4) == payload
        }),
{
    crate::text_laws::lengths_are_big_endian(payload.len() as u32, seq![]);
    let b = crate::text::be_bytes(payload.len() as u32);
    let f = frame(payload);
    assert(f[0] == b[0] && f[1] == b[1] && f[2] == b[2] && f[3] == b[3]);
    assert(f.skip(4) =~= payload);
}

/// A request is a frame of the command as it can be written. Where the bytes cannot be made, or
/// four bytes cannot tell their count, nothing is sent, and why is told.
pub proof fn a_request_carries_its_command(c: PyCommandView)
    ensures
        match json_bytes(writable(command_to_json(c))) {
            Ok(payload) => if payload.len() <= 0xffff_ffff {
                request_of(c) matches Ok(f) && f.len() == payload.len() + 4 && f.skip(4) == payload
                    && f[0] * 16777216 + f[1] * 65536 + f[2] * 256 + f[3] == payload.len()
            } else {
                request_of(c) == Err::<Seq<u8>, PyIpcErrorView>(
                    PyIpcErrorView::Protocol("request frame is too large"@),
                )
            },
            Err(e) => request_of(c) == Err::<Seq<u8>, PyIpcErrorView>(PyIpcErrorView::Json(e)),
        },
{
    match json_bytes(writable(command_to_json(c))) {
        Ok(payload) => {
            if payload.len() <= u32::MAX {
                a_frame_announces_its_length(payload);
            }
        },
        Err(_) => {},
    }
}

/// An answer may have 64 MiB.
pub proof fn answers_are_bounded()
    ensures
        MAX_FRAME_SIZE == 64 * 1024 * 1024,
{
}

/// An answer that is no JSON and one that is not understood are told apart.
pub proof fn a_bad_answer_is_told(body: Seq<u8>)
    ensures
        match json_read(body) {
            Err(e) => answer_of(body) == Err::<PyResultView, PyIpcErrorView>(
                PyIpcErrorView::Json(e),
            ),
            Ok(j) => match result_of_json(j) {
                Ok(r) => answer_of(body) == Ok::<PyResultView, PyIpcErrorView>(r),
                Err(text) => answer_of(body) == Err::<PyResultView, PyIpcErrorView>(
                    PyIpcErrorView::Protocol(text),
                ),
            },
        },
{
}

/// A result is kept under the request that its command names.
pub proof fn a_command_names_its_request(
    req_id: Seq<char>,
    a: Seq<char>,
    b: Seq<char>,
    v: PyValueView,
    args: Seq<PyValueView>,
    kwargs: Seq<(Seq<char>, PyValueView)>,
)
    ensures
        req_id_of(PyCommandView::Import { req_id, module: a }) == req_id,
        req_id_of(PyCommandView::ImportFile { req_id, module: a, path: b }) == req_id,
        req_id_of(PyCommandView::GetAttr { req_id, target: v, attr: a }) == req_id,
        req_id_of(PyCommandView::GetVariable { req_id, name: a }) == req_id,
        req_id_of(PyCommandView::SetVariable { req_id, name: a, value: v }) == req_id,
        req_id_of(PyCommandView::Call { req_id, module: a, function: b, args, kwargs }) == req_id,
        req_id_of(PyCommandView::CallMethod { req_id, target: v, method: a, args, kwargs })
            == req_id,
        req_id_of(PyCommandView::DropObject { req_id, handle: a }) == req_id,
{
}

/// What is written is the value, with each finite float as a number and any other one as nothing;
/// lists and objects are written item by item under the same names, and nothing else changes.
pub proof fn what_cannot_be_written_is_left_out(
    t: Seq<char>,
    items: Seq<JsonView>,
    members: Seq<(Seq<char>, JsonView)>,
    j: JsonView,
)
    ensures
        writable(JsonView::Float(t)) == if is_finite_float(encode_utf8(t)) {
            JsonView::Float(json_number(t))
        } else {
            JsonView::Null
        },
        writable(JsonView::Array(items)) == JsonView::Array(
            items.map_values(|x: JsonView| writable(x)),
        ),
        writable(JsonView::Object(members)) == JsonView::Object(
            members.map_values(|m: (Seq<char>, JsonView)| (m.0, writable(m.1))),
        ),
        !(j is Float) && !(j is Array) && !(j is Object) ==> writable(j) == j,
{
    assert(crate::json::writable_items(items) =~= items.map_values(|x: JsonView| writable(x)));
    assert(crate::json::writable_members(members) =~= members.map_values(
        |m: (Seq<char>, JsonView)| (m.0, writable(m.1)),
    ));
}

/// A value of a simple kind as a worker answers it.
pub open spec fn answered(kind: Seq<char>, value: JsonView) -> JsonView {
    JsonView::Object(seq![("type"@, JsonView::Str(kind)), ("value"@, value)])
}

proof fn lemma_answered(kind: Seq<char>, value: JsonView)
    ensures
        member(answered(kind, value), "type"@) == Some(JsonView::Str(kind)),
        member(answered(kind, value), "value"@) == Some(value),
{
    reveal_strlit("type");
    reveal_strlit("value");
    assert("type"@.len() != "value"@.len());
    let ms = seq![("type"@, JsonView::Str(kind)), ("value"@, value)];
    members_are_found_by_name(ms, "type"@, 0);
    members_are_found_by_name(ms, "value"@, 1);
}

proof fn lemma_kinds()
    ensures
        "none"@ != "bool"@ && "none"@ != "int"@ && "none"@ != "float"@ && "none"@ != "str"@
            && "none"@ != "handle"@ && "none"@ != "list"@ && "none"@ != "dict"@,
        "bool"@ != "int"@ && "bool"@ != "float"@ && "bool"@ != "str"@ && "bool"@ != "handle"@
            && "bool"@ != "list"@ && "bool"@ != "dict"@,
        "int"@ != "float"@ && "int"@ != "str"@ && "int"@ != "handle"@ && "int"@ != "list"@ && "int"@
            != "dict"@,
        "float"@ != "str"@ && "float"@ != "handle"@ && "float"@ != "list"@ && "float"@ != "dict"@,
        "str"@ != "handle"@ && "str"@ != "list"@ && "str"@ != "dict"@,
        "handle"@ != "list"@ && "handle"@ != "dict"@ && "list"@ != "dict"@,
{
    reveal_strlit("none");
    reveal_strlit("bool");
    reveal_strlit("int");
    reveal_strlit("float");
    reveal_strlit("str");
    reveal_strlit("handle");
    reveal_strlit("list");
    reveal_strlit("dict");
    assert("none"@[0] == 'n' && "bool"@[0] == 'b' && "int"@[0] == 'i' && "float"@[0] == 'f' && "str"@[0]
        == 's' && "handle"@[0] == 'h' && "list"@[0] == 'l' && "dict"@[0] == 'd');
}

/// A value of a simple kind is read where it is what its kind says; what is not is refused, by the
/// kind. An integer has 64 bits.
pub proof fn a_simple_value_is_what_its_kind_says(v: JsonView)
    ensures
        value_of_json(answered("none"@, v)) == Ok::<PyValueView, Seq<char>>(PyValueView::NoneValue),
        value_of_json(answered("bool"@, v)) == match v {
            JsonView::Bool(b) => Ok::<PyValueView, Seq<char>>(PyValueView::Bool(b)),
            _ => Err("invalid bool"@),
        },
        match v {
            JsonView::Int(i) => -0x8000_0000_0000_0000 <= i <= 0x7fff_ffff_ffff_ffff,
            _ => false,
        } ==> value_of_json(answered("int"@, v)) == Ok::<PyValueView, Seq<char>>(
            PyValueView::Int(v->Int_0),
        ),
        !(match v {
            JsonView::Int(i) => -0x8000_0000_0000_0000 <= i <= 0x7fff_ffff_ffff_ffff,
            _ => false,
        }) ==> value_of_json(answered("int"@, v)) == Err::<PyValueView, Seq<char>>("invalid int"@),
        !(v is Float) && !(v is Int) ==> value_of_json(answered("float"@, v)) == Err::<
            PyValueView,
            Seq<char>,
        >("invalid float"@),
        v is Float || v is Int ==> value_of_json(answered("float"@, v)) matches Ok(
            PyValueView::Float(_),
        ),
        value_of_json(answered("str"@, v)) == match v {
            JsonView::Str(s) => Ok::<PyValueView, Seq<char>>(PyValueView::Str(s)),
            _ => Err("invalid string"@),
        },
        value_of_json(answered("handle"@, v)) == match v {
            JsonView::Str(s) => Ok::<PyValueView, Seq<char>>(PyValueView::Handle(s)),
            _ => Err("invalid handle"@),
        },
{
    lemma_kinds();
    lemma_answered("none"@, v);
    lemma_answered("bool"@, v);
    lemma_answered("int"@, v);
    lemma_answered("float"@, v);
    lemma_answered("str"@, v);
    lemma_answered("handle"@, v);
}

/// A list is read item by item and a dictionary entry by entry, in order; what is neither is
/// refused, and so is a value without a kind or of an unknown one.
pub proof fn a_container_is_read_item_by_item(v: JsonView, kind: Seq<char>)
    ensures
        value_of_json(answered("list"@, v)) == match v {
            JsonView::Array(items) => match values_of_json(items, 0) {
                Ok(vs) => Ok::<PyValueView, Seq<char>>(PyValueView::List(vs)),
                Err(e) => Err(e),
            },
            _ => Err("invalid list"@),
        },
        value_of_json(answered("dict"@, v)) == match v {
            JsonView::Array(items) => match entries_of_json(items, 0) {
                Ok(es) => Ok::<PyValueView, Seq<char>>(PyValueView::Dict(es)),
                Err(e) => Err(e),
            },
            _ => Err("invalid dict"@),
        },
        value_of_json(JsonView::Object(seq![("value"@, v)])) == Err::<PyValueView, Seq<char>>(
            "result is missing type"@,
        ),
        kind != "none"@ && kind != "bool"@ && kind != "int"@ && kind != "float"@ && kind != "str"@
            && kind != "handle"@ && kind != "list"@ && kind != "dict"@ ==> value_of_json(
            answered(kind, v),
        ) == Err::<PyValueView, Seq<char>>("unknown result type "@ + quoted_text(kind)),
{
    lemma_kinds();
    lemma_answered("list"@, v);
    lemma_answered("dict"@, v);
    lemma_answered(kind, v);
    reveal_strlit("type");
    reveal_strlit("value");
    assert("type"@.len() != "value"@.len());
    members_are_found_by_name(seq![("value"@, v)], "type"@, 0);
}

/// The items of a list are all read, each from its place; the first that cannot be read is why the
/// list cannot.
pub proof fn items_are_read_one_for_one(items: Seq<JsonView>, k: int)
    requires
        0 <= k <= items.len(),
        forall|j: int| 0 <= j < k ==> value_of_json(#[trigger] items[j]) is Ok,
        k < items.len() ==> value_of_json(items[k]) is Err,
    ensures
        k == items.len() ==> (values_of_json(items, 0) matches Ok(vs) && vs == items.map_values(
            |j: JsonView| value_of_json(j)->Ok_0,
        )),
        k < items.len() ==> values_of_json(items, 0) == Err::<Seq<PyValueView>, Seq<char>>(
            value_of_json(items[k])->Err_0,
        ),
{
    lemma_items(items, 0, k);
    let all = items.map_values(|j: JsonView| value_of_json(j)->Ok_0);
    assert(all.skip(0) =~= all);
}

proof fn lemma_items(items: Seq<JsonView>, i: int, k: int)
    requires
        0 <= i <= k <= items.len(),
        forall|j: int| 0 <= j < k ==> value_of_json(#[trigger] items[j]) is Ok,
        k < items.len() ==> value_of_json(items[k]) is Err,
    ensures
        k == items.len() ==> (values_of_json(items, i) matches Ok(vs) && vs == items.map_values(
            |j: JsonView| value_of_json(j)->Ok_0,
        ).skip(i)),
        k < items.len() ==> values_of_json(items, i) == Err::<Seq<PyValueView>, Seq<char>>(
            value_of_json(items[k])->Err_0,
        ),
    decreases items.len() - i,
{
    let all = items.map_values(|j: JsonView| value_of_json(j)->Ok_0);
    if i < items.len() {
        if i < k {
            lemma_items(items, i + 1, k);
            assert(value_of_json(items[i]) is Ok);
            assert(all.skip(i) =~= seq![all[i]] + all.skip(i + 1));
        }
    } else {
        assert(all.skip(i) =~= seq![]);
    }
}

/// The entries of a dictionary are all read, each from its place; the first that cannot be read is
/// why the dictionary cannot.
pub proof fn entries_are_read_one_for_one(items: Seq<JsonView>, k: int)
    requires
        0 <= k <= items.len(),
        forall|j: int| 0 <= j < k ==> entry_of_json(#[trigger] items[j]) is Ok,
        k < items.len() ==> entry_of_json(items[k]) is Err,
    ensures
        k == items.len() ==> (entries_of_json(items, 0) matches Ok(es) && es == items.map_values(
            |j: JsonView| entry_of_json(j)->Ok_0,
        )),
        k < items.len() ==> entries_of_json(items, 0) == Err::<
            Seq<(Seq<char>, PyValueView)>,
            Seq<char>,
        >(entry_of_json(items[k])->Err_0),
{
    lemma_entries(items, 0, k);
    let all = items.map_values(|j: JsonView| entry_of_json(j)->Ok_0);
    assert(all.skip(0) =~= all);
}

proof fn lemma_entries(items: Seq<JsonView>, i: int, k: int)
    requires
        0 <= i <= k <= items.len(),
        forall|j: int| 0 <= j < k ==> entry_of_json(#[trigger] items[j]) is Ok,
        k < items.len() ==> entry_of_json(items[k]) is Err,
    ensures
        k == items.len() ==> (entries_of_json(items, i) matches Ok(es) && es == items.map_values(
            |j: JsonView| entry_of_json(j)->Ok_0,
        ).skip(i)),
        k < items.len() ==> entries_of_json(items, i) == Err::<
            Seq<(Seq<char>, PyValueView)>,
            Seq<char>,
        >(entry_of_json(items[k])->Err_0),
    decreases items.len() - i,
{
    let all = items.map_values(|j: JsonView| entry_of_json(j)->Ok_0);
    if i < items.len() {
        if i < k {
            lemma_entries(items, i + 1, k);
            assert(entry_of_json(items[i]) is Ok);
            assert(all.skip(i) =~= seq![all[i]] + all.skip(i + 1));
        }
    } else {
        assert(all.skip(i) =~= seq![]);
    }
}

/// An entry is a text and a value, in this order; what follows them is not looked at.
pub proof fn an_entry_is_a_text_and_a_value(j: JsonView, key: Seq<char>, v: JsonView, more: Seq<JsonView>)
    ensures
        entry_of_json(JsonView::Array(seq![JsonView::Str(key), v] + more)) == match value_of_json(
            v,
        ) {
            Ok(x) => Ok::<(Seq<char>, PyValueView), Seq<char>>((key, x)),
            Err(e) => Err(e),
        },
        !(j is Array) ==> entry_of_json(j) == Err::<(Seq<char>, PyValueView), Seq<char>>(
            "invalid dict entry"@,
        ),
        entry_of_json(JsonView::Array(seq![])) == Err::<(Seq<char>, PyValueView), Seq<char>>(
            "invalid dict entry"@,
        ),
        entry_of_json(JsonView::Array(seq![JsonView::Str(key)])) == Err::<
            (Seq<char>, PyValueView),
            Seq<char>,
        >("invalid dict entry"@),
        !(v is Str) ==> entry_of_json(JsonView::Array(seq![v] + more)) == Err::<
            (Seq<char>, PyValueView),
            Seq<char>,
        >("invalid dict key"@),
{
    let pair = seq![JsonView::Str(key), v] + more;
    assert(pair[0] == JsonView::Str(key) && pair[1] == v);
    assert((seq![v] + more)[0] == v);
}

/// Each kind of failure is told in its own words, with its detail.
pub proof fn failures_are_told_by_kind(e: Seq<char>)
    ensures
        PyIpcError::text(PyIpcErrorView::Io(e)) == "python worker I/O error: "@ + e,
        PyIpcError::text(PyIpcErrorView::Json(e)) == "python worker JSON error: "@ + e,
        PyIpcError::text(PyIpcErrorView::Protocol(e)) == "invalid python worker response: "@ + e,
        PyIpcError::text(PyIpcErrorView::MissingResult(e)) == "no cached Python result for request "@
            + quoted_text(e),
        PyIpcError::text(PyIpcErrorView::WorkerFailed(e)) == "python worker failed: "@ + e,
{
}

} // verus!
