//! Sessions: the messages of a Python worker, and the results that queries read.
//!
//! Each message is a JSON value behind a four byte, big-endian length.
use vstd::prelude::*;
use vstd::utf8::encode_utf8;

use crate::expr::{encode, fits, Expr};
use crate::float::{check_finite, is_finite_float};
use crate::float_text::{float_form, print_float};
use crate::json::{
    items_view, json_bytes, json_from_bytes, json_read, json_to_bytes, lemma_member_smaller,
    make_writable, member, members_view, object, put, text_member, writable, Json, JsonView,
};
use crate::python::parse::{addressable, command_of, py_command_from_expr};
use crate::python::protocol::{
    entries_view, py_result_to_expr_bytes, result_tree, values_view, PyCommand, PyCommandView,
    PyResult, PyResultView, PyValue, PyValueView,
};
use crate::table::Table;
use crate::text::{
    be_bytes, be_value, concat, dec_text, i128_text, int_text, lemma_be_bytes, quoted, quoted_text,
    str_eq, u64_text,
};

verus! {

/// The largest answer that is read.
pub const MAX_FRAME_SIZE: u32 = 67108864;

/// Why a Python operation failed.
#[derive(Debug, PartialEq)]
pub enum PyIpcError {
    Io(String),
    Json(String),
    Protocol(String),
    MissingResult(String),
    WorkerFailed(String),
}

/// The mathematical value of a `PyIpcError`.
pub ghost enum PyIpcErrorView {
    Io(Seq<char>),
    Json(Seq<char>),
    Protocol(Seq<char>),
    MissingResult(Seq<char>),
    WorkerFailed(Seq<char>),
}

impl PyIpcError {
    pub open spec fn view(&self) -> PyIpcErrorView {
        match self {
            PyIpcError::Io(e) => PyIpcErrorView::Io(e@),
            PyIpcError::Json(e) => PyIpcErrorView::Json(e@),
            PyIpcError::Protocol(e) => PyIpcErrorView::Protocol(e@),
            PyIpcError::MissingResult(id) => PyIpcErrorView::MissingResult(id@),
            PyIpcError::WorkerFailed(e) => PyIpcErrorView::WorkerFailed(e@),
        }
    }

    pub open spec fn text(e: PyIpcErrorView) -> Seq<char> {
        match e {
            PyIpcErrorView::Io(e) => "python worker I/O error: "@ + e,
            PyIpcErrorView::Json(e) => "python worker JSON error: "@ + e,
            PyIpcErrorView::Protocol(e) => "invalid python worker response: "@ + e,
            PyIpcErrorView::MissingResult(id) => "no cached Python result for request "@
                + quoted_text(id),
            PyIpcErrorView::WorkerFailed(e) => "python worker failed: "@ + e,
        }
    }

    /// The message shown for the error.
    pub fn message(&self) -> (r: String)
        ensures
            r@ == PyIpcError::text(self@),
    {
        match self {
            PyIpcError::Io(e) => concat("python worker I/O error: ", e.as_str()),
            PyIpcError::Json(e) => concat("python worker JSON error: ", e.as_str()),
            PyIpcError::Protocol(e) => concat("invalid python worker response: ", e.as_str()),
            PyIpcError::MissingResult(id) => concat(
                "no cached Python result for request ",
                quoted(id.as_str()).as_str(),
            ),
            PyIpcError::WorkerFailed(e) => concat("python worker failed: ", e.as_str()),
        }
    }
}

fn protocol(message: &str) -> (r: PyIpcError)
    ensures
        r@ == PyIpcErrorView::Protocol(message@),
{
    PyIpcError::Protocol(message.to_owned())
}

/// The request identifier of a command.
pub open spec fn req_id_of(c: PyCommandView) -> Seq<char> {
    match c {
        PyCommandView::Import { req_id, .. } => req_id,
        PyCommandView::ImportFile { req_id, .. } => req_id,
        PyCommandView::GetAttr { req_id, .. } => req_id,
        PyCommandView::GetVariable { req_id, .. } => req_id,
        PyCommandView::SetVariable { req_id, .. } => req_id,
        PyCommandView::Call { req_id, .. } => req_id,
        PyCommandView::CallMethod { req_id, .. } => req_id,
        PyCommandView::DropObject { req_id, .. } => req_id,
    }
}

/// The request identifier of a command.
pub fn command_req_id(command: &PyCommand) -> (r: &String)
    ensures
        r@ == req_id_of(command@),
{
    match command {
        PyCommand::Import { req_id, .. } => req_id,
        PyCommand::ImportFile { req_id, .. } => req_id,
        PyCommand::GetAttr { req_id, .. } => req_id,
        PyCommand::GetVariable { req_id, .. } => req_id,
        PyCommand::SetVariable { req_id, .. } => req_id,
        PyCommand::Call { req_id, .. } => req_id,
        PyCommand::CallMethod { req_id, .. } => req_id,
        PyCommand::DropObject { req_id, .. } => req_id,
    }
}

/// An object with a type name and a value.
pub open spec fn typed(kind: Seq<char>, value: JsonView) -> JsonView {
    JsonView::Object(seq![("type"@, JsonView::Str(kind)), ("value"@, value)])
}

/// What stands for a float: JSON has no number for one that is not finite, so null stands there.
pub open spec fn float_json(t: Seq<char>) -> JsonView {
    if is_finite_float(encode_utf8(t)) {
        JsonView::Float(t)
    } else {
        JsonView::Null
    }
}

/// The JSON form of a value.
pub open spec fn value_to_json(v: PyValueView) -> JsonView
    decreases v,
{
    match v {
        PyValueView::NoneValue => typed("none"@, JsonView::Null),
        PyValueView::Bool(b) => typed("bool"@, JsonView::Bool(b)),
        PyValueView::Int(i) => typed("int"@, JsonView::Int(i)),
        PyValueView::Float(t) => typed("float"@, float_json(t)),
        PyValueView::Str(s) => typed("str"@, JsonView::Str(s)),
        PyValueView::Handle(h) => typed("handle"@, JsonView::Str(h)),
        PyValueView::List(vs) => typed("list"@, JsonView::Array(values_to_json(vs))),
        PyValueView::Dict(es) => typed("dict"@, JsonView::Array(entries_to_json(es))),
    }
}

pub open spec fn values_to_json(vs: Seq<PyValueView>) -> Seq<JsonView>
    decreases vs,
{
    Seq::new(
        vs.len(),
        |i: int|
            if 0 <= i < vs.len() {
                value_to_json(vs[i])
            } else {
                JsonView::Null
            },
    )
}

pub open spec fn entries_to_json(es: Seq<(Seq<char>, PyValueView)>) -> Seq<JsonView>
    decreases es,
{
    Seq::new(
        es.len(),
        |i: int|
            if 0 <= i < es.len() {
                JsonView::Array(seq![JsonView::Str(es[i].0), value_to_json(es[i].1)])
            } else {
                JsonView::Null
            },
    )
}

/// The JSON form of a command.
pub open spec fn command_to_json(c: PyCommandView) -> JsonView {
    match c {
        PyCommandView::Import { req_id, module } => JsonView::Object(
            seq![
                ("command"@, JsonView::Str("import"@)),
                ("req_id"@, JsonView::Str(req_id)),
                ("module"@, JsonView::Str(module)),
            ],
        ),
        PyCommandView::ImportFile { req_id, module, path } => JsonView::Object(
            seq![
                ("command"@, JsonView::Str("import-file"@)),
                ("req_id"@, JsonView::Str(req_id)),
                ("module"@, JsonView::Str(module)),
                ("path"@, JsonView::Str(path)),
            ],
        ),
        PyCommandView::GetAttr { req_id, target, attr } => JsonView::Object(
            seq![
                ("command"@, JsonView::Str("getattr"@)),
                ("req_id"@, JsonView::Str(req_id)),
                ("target"@, value_to_json(target)),
                ("attr"@, JsonView::Str(attr)),
            ],
        ),
        PyCommandView::GetVariable { req_id, name } => JsonView::Object(
            seq![
                ("command"@, JsonView::Str("get-variable"@)),
                ("req_id"@, JsonView::Str(req_id)),
                ("name"@, JsonView::Str(name)),
            ],
        ),
        PyCommandView::SetVariable { req_id, name, value } => JsonView::Object(
            seq![
                ("command"@, JsonView::Str("set-variable"@)),
                ("req_id"@, JsonView::Str(req_id)),
                ("name"@, JsonView::Str(name)),
                ("value"@, value_to_json(value)),
            ],
        ),
        PyCommandView::Call { req_id, module, function, args, kwargs } => JsonView::Object(
            seq![
                ("command"@, JsonView::Str("call"@)),
                ("req_id"@, JsonView::Str(req_id)),
                ("module"@, JsonView::Str(module)),
                ("function"@, JsonView::Str(function)),
                ("args"@, JsonView::Array(values_to_json(args))),
                ("kwargs"@, JsonView::Array(entries_to_json(kwargs))),
            ],
        ),
        PyCommandView::CallMethod { req_id, target, method, args, kwargs } => JsonView::Object(
            seq![
                ("command"@, JsonView::Str("call-method"@)),
                ("req_id"@, JsonView::Str(req_id)),
                ("target"@, value_to_json(target)),
                ("method"@, JsonView::Str(method)),
                ("args"@, JsonView::Array(values_to_json(args))),
                ("kwargs"@, JsonView::Array(entries_to_json(kwargs))),
            ],
        ),
        PyCommandView::DropObject { req_id, handle } => JsonView::Object(
            seq![
                ("command"@, JsonView::Str("drop-object"@)),
                ("req_id"@, JsonView::Str(req_id)),
                ("handle"@, JsonView::Str(handle)),
            ],
        ),
    }
}

fn typed_json(kind: &str, value: Json) -> (r: Json)
    ensures
        r@ == typed(kind@, value@),
{
    let mut members = object();
    put(&mut members, "type", Json::Str(kind.to_owned()));
    put(&mut members, "value", value);
    assert(members_view(members@) =~= seq![
        ("type"@, JsonView::Str(kind@)),
        ("value"@, value@),
    ]);
    Json::Object(members)
}

/// The JSON form of a value.
pub fn value_json(value: &PyValue) -> (r: Json)
    ensures
        r@ == value_to_json(value@),
    decreases value, 0int,
{
    match value {
        PyValue::NoneValue => typed_json("none", Json::Null),
        PyValue::Bool(b) => typed_json("bool", Json::Bool(*b)),
        PyValue::Int(i) => typed_json("int", Json::Int(*i as i128)),
        PyValue::Float(t) => if check_finite(t.as_str().as_bytes()) {
            typed_json("float", Json::Float(t.clone()))
        } else {
            typed_json("float", Json::Null)
        },
        PyValue::Str(s) => typed_json("str", Json::Str(s.clone())),
        PyValue::Handle(h) => typed_json("handle", Json::Str(h.clone())),
        PyValue::List(vs) => typed_json("list", Json::Array(values_json(vs))),
        PyValue::Dict(es) => typed_json("dict", Json::Array(entries_json(es))),
    }
}

fn values_json(vs: &Vec<PyValue>) -> (r: Vec<Json>)
    ensures
        items_view(r@) == values_to_json(values_view(vs@)),
    decreases vs, 0int,
{
    let mut out: Vec<Json> = Vec::new();
    let mut i: usize = 0;
    while i < vs.len()
        invariant
            0 <= i <= vs@.len(),
            items_view(out@) == values_to_json(values_view(vs@)).take(i as int),
        decreases vs@.len() - i,
    {
        let ghost before = out@;
        out.push(value_json(&vs[i]));
        i = i + 1;
        assert(items_view(out@) =~= items_view(before).push(value_to_json(vs@[i - 1]@)));
        assert(items_view(out@) =~= values_to_json(values_view(vs@)).take(i as int));
    }
    assert(items_view(out@) =~= values_to_json(values_view(vs@)));
    out
}

fn entry_json(key: &String, value: &PyValue) -> (r: Json)
    ensures
        r@ == JsonView::Array(seq![JsonView::Str(key@), value_to_json(value@)]),
    decreases value, 1int,
{
    let mut pair: Vec<Json> = Vec::new();
    pair.push(Json::Str(key.clone()));
    pair.push(value_json(value));
    assert(items_view(pair@) =~= seq![JsonView::Str(key@), value_to_json(value@)]);
    Json::Array(pair)
}

fn entries_json(es: &Vec<(String, PyValue)>) -> (r: Vec<Json>)
    ensures
        items_view(r@) == entries_to_json(entries_view(es@)),
    decreases es, 0int,
{
    let mut out: Vec<Json> = Vec::new();
    let mut i: usize = 0;
    while i < es.len()
        invariant
            0 <= i <= es@.len(),
            items_view(out@) == entries_to_json(entries_view(es@)).take(i as int),
        decreases es@.len() - i,
    {
        let ghost before = out@;
        out.push(entry_json(&es[i].0, &es[i].1));
        i = i + 1;
        assert(items_view(out@) =~= items_view(before).push(
            JsonView::Array(seq![JsonView::Str(es@[i - 1].0@), value_to_json(es@[i - 1].1@)]),
        ));
        assert(items_view(out@) =~= entries_to_json(entries_view(es@)).take(i as int));
    }
    assert(items_view(out@) =~= entries_to_json(entries_view(es@)));
    out
}

/// The first two members of every command.
fn start_command(name: &str, req_id: &String) -> (r: Vec<(String, Json)>)
    ensures
        members_view(r@) == seq![
            ("command"@, JsonView::Str(name@)),
            ("req_id"@, JsonView::Str(req_id@)),
        ],
{
    let mut members = object();
    put(&mut members, "command", Json::Str(name.to_owned()));
    put(&mut members, "req_id", Json::Str(req_id.clone()));
    assert(members_view(members@) =~= seq![
        ("command"@, JsonView::Str(name@)),
        ("req_id"@, JsonView::Str(req_id@)),
    ]);
    members
}

/// The JSON form of a command. It is never refused.
pub fn command_json(command: &PyCommand) -> (r: Result<Json, PyIpcError>)
    ensures
        r matches Ok(j) && j@ == command_to_json(command@),
{
    let ghost want = command_to_json(command@);
    let members = match command {
        PyCommand::Import { req_id, module } => {
            let mut m = start_command("import", req_id);
            put(&mut m, "module", Json::Str(module.clone()));
            m
        },
        PyCommand::ImportFile { req_id, module, path } => {
            let mut m = start_command("import-file", req_id);
            put(&mut m, "module", Json::Str(module.clone()));
            put(&mut m, "path", Json::Str(path.clone()));
            m
        },
        PyCommand::GetAttr { req_id, target, attr } => {
            let mut m = start_command("getattr", req_id);
            put(&mut m, "target", value_json(target));
            put(&mut m, "attr", Json::Str(attr.clone()));
            m
        },
        PyCommand::GetVariable { req_id, name } => {
            let mut m = start_command("get-variable", req_id);
            put(&mut m, "name", Json::Str(name.clone()));
            m
        },
        PyCommand::SetVariable { req_id, name, value } => {
            let mut m = start_command("set-variable", req_id);
            put(&mut m, "name", Json::Str(name.clone()));
            put(&mut m, "value", value_json(value));
            m
        },
        PyCommand::Call { req_id, module, function, args, kwargs } => {
            let mut m = start_command("call", req_id);
            put(&mut m, "module", Json::Str(module.clone()));
            put(&mut m, "function", Json::Str(function.clone()));
            put(&mut m, "args", Json::Array(values_json(args)));
            put(&mut m, "kwargs", Json::Array(entries_json(kwargs)));
            m
        },
        PyCommand::CallMethod { req_id, target, method, args, kwargs } => {
            let mut m = start_command("call-method", req_id);
            put(&mut m, "target", value_json(target));
            put(&mut m, "method", Json::Str(method.clone()));
            put(&mut m, "args", Json::Array(values_json(args)));
            put(&mut m, "kwargs", Json::Array(entries_json(kwargs)));
            m
        },
        PyCommand::DropObject { req_id, handle } => {
            let mut m = start_command("drop-object", req_id);
            put(&mut m, "handle", Json::Str(handle.clone()));
            m
        },
    };
    assert(want matches JsonView::Object(w) && members_view(members@) =~= w);
    Ok(Json::Object(members))
}

/// What the "value" member holds; null where there is none.
pub open spec fn payload(j: JsonView) -> JsonView {
    match member(j, "value"@) {
        Some(v) => v,
        None => JsonView::Null,
    }
}

/// The form in which a number prints as a float; integers count as floats too.
pub open spec fn float_text(j: JsonView) -> Option<Seq<char>> {
    match j {
        JsonView::Float(t) => Some(float_form(t)),
        JsonView::Int(i) => Some(float_form(int_text(i))),
        _ => None,
    }
}

/// The value that a typed JSON object writes, or what is wrong with it.
pub open spec fn value_of_json(j: JsonView) -> Result<PyValueView, Seq<char>>
    decreases j, 0int,
{
    match text_member(j, "type"@) {
        None => Err("result is missing type"@),
        Some(kind) => if kind == "none"@ {
            Ok(PyValueView::NoneValue)
        } else if kind == "bool"@ {
            match payload(j) {
                JsonView::Bool(b) => Ok(PyValueView::Bool(b)),
                _ => Err("invalid bool"@),
            }
        } else if kind == "int"@ {
            match payload(j) {
                JsonView::Int(i) => if i64::MIN <= i <= i64::MAX {
                    Ok(PyValueView::Int(i))
                } else {
                    Err("invalid int"@)
                },
                _ => Err("invalid int"@),
            }
        } else if kind == "float"@ {
            match float_text(payload(j)) {
                Some(t) => Ok(PyValueView::Float(t)),
                None => Err("invalid float"@),
            }
        } else if kind == "str"@ {
            match payload(j) {
                JsonView::Str(s) => Ok(PyValueView::Str(s)),
                _ => Err("invalid string"@),
            }
        } else if kind == "handle"@ {
            match payload(j) {
                JsonView::Str(s) => Ok(PyValueView::Handle(s)),
                _ => Err("invalid handle"@),
            }
        } else if kind == "list"@ {
            match member(j, "value"@) {
                Some(v) => {
                    proof {
                        lemma_payload_smaller(j);
                    }
                    match v {
                        JsonView::Array(items) => match values_of_json(items, 0) {
                            Ok(vs) => Ok(PyValueView::List(vs)),
                            Err(e) => Err(e),
                        },
                        _ => Err("invalid list"@),
                    }
                },
                None => Err("invalid list"@),
            }
        } else if kind == "dict"@ {
            match member(j, "value"@) {
                Some(v) => {
                    proof {
                        lemma_payload_smaller(j);
                    }
                    match v {
                        JsonView::Array(items) => match entries_of_json(items, 0) {
                            Ok(es) => Ok(PyValueView::Dict(es)),
                            Err(e) => Err(e),
                        },
                        _ => Err("invalid dict"@),
                    }
                },
                None => Err("invalid dict"@),
            }
        } else {
            Err("unknown result type "@ + quoted_text(kind))
        },
    }
}

/// The values of the items from the `k`-th on; the first that fails decides.
pub open spec fn values_of_json(items: Seq<JsonView>, k: int) -> Result<Seq<PyValueView>, Seq<char>>
    decreases items, items.len() - k,
{
    if k < 0 || k >= items.len() {
        Ok(seq![])
    } else {
        match value_of_json(items[k]) {
            Err(e) => Err(e),
            Ok(v) => match values_of_json(items, k + 1) {
                Err(e) => Err(e),
                Ok(vs) => Ok(seq![v] + vs),
            },
        }
    }
}

/// The named value of a two-item array.
pub open spec fn entry_of_json(j: JsonView) -> Result<(Seq<char>, PyValueView), Seq<char>>
    decreases j, 0int,
{
    match j {
        JsonView::Array(pair) => if pair.len() == 0 {
            Err("invalid dict entry"@)
        } else {
            match pair[0] {
                JsonView::Str(key) => if pair.len() < 2 {
                    Err("invalid dict entry"@)
                } else {
                    match value_of_json(pair[1]) {
                        Ok(v) => Ok((key, v)),
                        Err(e) => Err(e),
                    }
                },
                _ => Err("invalid dict key"@),
            }
        },
        _ => Err("invalid dict entry"@),
    }
}

/// The named values of the items from the `k`-th on; the first that fails decides.
pub open spec fn entries_of_json(items: Seq<JsonView>, k: int) -> Result<
    Seq<(Seq<char>, PyValueView)>,
    Seq<char>,
>
    decreases items, items.len() - k,
{
    if k < 0 || k >= items.len() {
        Ok(seq![])
    } else {
        match entry_of_json(items[k]) {
            Err(e) => Err(e),
            Ok(entry) => match entries_of_json(items, k + 1) {
                Err(e) => Err(e),
                Ok(es) => Ok(seq![entry] + es),
            },
        }
    }
}

pub proof fn lemma_payload_smaller(j: JsonView)
    ensures
        member(j, "value"@) matches Some(v) ==> decreases_to!(j => v),
{
    if let JsonView::Object(members) = j {
        lemma_member_smaller(members, "value"@, 0);
        assert(decreases_to!(j => members));
    }
}

/// The result that a worker's answer writes, or what is wrong with it.
pub open spec fn result_of_json(j: JsonView) -> Result<PyResultView, Seq<char>> {
    match text_member(j, "status"@) {
        Some(status) => if status == "ok"@ {
            match member(j, "result"@) {
                None => Err("ok response has no result"@),
                Some(r) => match value_of_json(r) {
                    Ok(v) => Ok(PyResultView::Success(v)),
                    Err(e) => Err(e),
                },
            }
        } else if status == "error"@ {
            Ok(
                PyResultView::Error {
                    error_type: text_or(text_member(j, "type"@), "PythonError"@),
                    message: text_or(text_member(j, "message"@), ""@),
                    traceback: text_or(text_member(j, "traceback"@), ""@),
                },
            )
        } else {
            Err("response status must be ok or error"@)
        },
        None => Err("response status must be ok or error"@),
    }
}

pub open spec fn text_or(t: Option<Seq<char>>, default: Seq<char>) -> Seq<char> {
    match t {
        Some(s) => s,
        None => default,
    }
}

pub open spec fn same_json_value(
    r: Result<PyValue, PyIpcError>,
    s: Result<PyValueView, Seq<char>>,
) -> bool {
    match r {
        Ok(v) => s == Ok::<PyValueView, Seq<char>>(v@),
        Err(e) => s matches Err(text) && e@ == PyIpcErrorView::Protocol(text),
    }
}

/// Reads a value out of its JSON form.
#[verifier::rlimit(40)]
pub fn value_from_json(value: &Json) -> (r: Result<PyValue, PyIpcError>)
    ensures
        same_json_value(r, value_of_json(value@)),
    decreases value, 0int,
{
    let kind = match value.get_str("type") {
        Some(kind) => kind.as_str(),
        None => return Err(protocol("result is missing type")),
    };
    let held = value.get("value");
    if str_eq(kind, "none") {
        Ok(PyValue::NoneValue)
    } else if str_eq(kind, "bool") {
        match held {
            Some(Json::Bool(b)) => Ok(PyValue::Bool(*b)),
            _ => Err(protocol("invalid bool")),
        }
    } else if str_eq(kind, "int") {
        match held {
            Some(Json::Int(i)) => if -0x8000_0000_0000_0000 <= *i && *i
                <= 0x7fff_ffff_ffff_ffff {
                Ok(PyValue::Int(*i as i64))
            } else {
                Err(protocol("invalid int"))
            },
            _ => Err(protocol("invalid int")),
        }
    } else if str_eq(kind, "float") {
        match held {
            Some(Json::Float(t)) => Ok(PyValue::Float(print_float(t.as_str()))),
            Some(Json::Int(i)) => Ok(PyValue::Float(print_float(i128_text(*i).as_str()))),
            _ => Err(protocol("invalid float")),
        }
    } else if str_eq(kind, "str") {
        match held {
            Some(Json::Str(s)) => Ok(PyValue::Str(s.clone())),
            _ => Err(protocol("invalid string")),
        }
    } else if str_eq(kind, "handle") {
        match held {
            Some(Json::Str(s)) => Ok(PyValue::Handle(s.clone())),
            _ => Err(protocol("invalid handle")),
        }
    } else if str_eq(kind, "list") {
        match held {
            Some(Json::Array(items)) => match values_from_json(items) {
                Ok(vs) => Ok(PyValue::List(vs)),
                Err(e) => Err(e),
            },
            _ => Err(protocol("invalid list")),
        }
    } else if str_eq(kind, "dict") {
        match held {
            Some(Json::Array(items)) => match entries_from_json(items) {
                Ok(es) => Ok(PyValue::Dict(es)),
                Err(e) => Err(e),
            },
            _ => Err(protocol("invalid dict")),
        }
    } else {
        Err(PyIpcError::Protocol(concat("unknown result type ", quoted(kind).as_str())))
    }
}

fn values_from_json(items: &Vec<Json>) -> (r: Result<Vec<PyValue>, PyIpcError>)
    ensures
        match r {
            Ok(vs) => values_of_json(items_view(items@), 0) == Ok::<Seq<PyValueView>, Seq<char>>(
                values_view(vs@),
            ),
            Err(e) => values_of_json(items_view(items@), 0) matches Err(text) && e@
                == PyIpcErrorView::Protocol(text),
        },
    decreases items, 0int,
{
    let ghost js = items_view(items@);
    let mut out: Vec<PyValue> = Vec::new();
    let mut k: usize = 0;
    proof {
        assert(values_view(out@) =~= seq![]);
        if let Ok(vs) = values_of_json(js, 0) {
            assert(values_view(out@) + vs =~= vs);
        }
    }
    while k < items.len()
        invariant
            js == items_view(items@),
            values_of_json(js, 0) == (match values_of_json(js, k as int) {
                Ok(vs) => Ok(values_view(out@) + vs),
                Err(e) => Err(e),
            }),
        decreases items@.len() - k,
    {
        assert(js[k as int] == items@[k as int]@);
        let ghost before = out@;
        match value_from_json(&items[k]) {
            Ok(v) => {
                out.push(v);
                proof {
                    assert(values_view(out@) =~= values_view(before) + seq![v@]);
                    if let Ok(vs) = values_of_json(js, k + 1) {
                        assert(values_view(before) + (seq![v@] + vs) =~= values_view(out@) + vs);
                    }
                }
            },
            Err(e) => return Err(e),
        }
        k = k + 1;
    }
    assert(values_view(out@) + seq![] =~= values_view(out@));
    Ok(out)
}

fn entry_from_json(x: &Json) -> (r: Result<(String, PyValue), PyIpcError>)
    ensures
        match r {
            Ok((key, v)) => entry_of_json(x@) == Ok::<(Seq<char>, PyValueView), Seq<char>>(
                (key@, v@),
            ),
            Err(e) => entry_of_json(x@) matches Err(text) && e@ == PyIpcErrorView::Protocol(text),
        },
    decreases x, 0int,
{
    match x {
        Json::Array(pair) => {
            if pair.len() == 0 {
                return Err(protocol("invalid dict entry"));
            }
            assert(items_view(pair@)[0] == pair@[0]@);
            let key = match &pair[0] {
                Json::Str(key) => key,
                _ => return Err(protocol("invalid dict key")),
            };
            if pair.len() < 2 {
                return Err(protocol("invalid dict entry"));
            }
            assert(items_view(pair@)[1] == pair@[1]@);
            match value_from_json(&pair[1]) {
                Ok(v) => Ok((key.clone(), v)),
                Err(e) => Err(e),
            }
        },
        _ => Err(protocol("invalid dict entry")),
    }
}

fn entries_from_json(items: &Vec<Json>) -> (r: Result<Vec<(String, PyValue)>, PyIpcError>)
    ensures
        match r {
            Ok(es) => entries_of_json(items_view(items@), 0) == Ok::<
                Seq<(Seq<char>, PyValueView)>,
                Seq<char>,
            >(entries_view(es@)),
            Err(e) => entries_of_json(items_view(items@), 0) matches Err(text) && e@
                == PyIpcErrorView::Protocol(text),
        },
    decreases items, 0int,
{
    let ghost js = items_view(items@);
    let mut out: Vec<(String, PyValue)> = Vec::new();
    let mut k: usize = 0;
    proof {
        assert(entries_view(out@) =~= seq![]);
        if let Ok(es) = entries_of_json(js, 0) {
            assert(entries_view(out@) + es =~= es);
        }
    }
    while k < items.len()
        invariant
            js == items_view(items@),
            entries_of_json(js, 0) == (match entries_of_json(js, k as int) {
                Ok(es) => Ok(entries_view(out@) + es),
                Err(e) => Err(e),
            }),
        decreases items@.len() - k,
    {
        assert(js[k as int] == items@[k as int]@);
        let ghost before = out@;
        match entry_from_json(&items[k]) {
            Ok((key, v)) => {
                out.push((key, v));
                proof {
                    assert(entries_view(out@) =~= entries_view(before) + seq![(key@, v@)]);
                    if let Ok(es) = entries_of_json(js, k + 1) {
                        assert(entries_view(before) + (seq![(key@, v@)] + es) =~= entries_view(out@)
                            + es);
                    }
                }
            },
            Err(e) => return Err(e),
        }
        k = k + 1;
    }
    assert(entries_view(out@) + seq![] =~= entries_view(out@));
    Ok(out)
}

fn str_or(found: Option<&String>, default: &str) -> (r: String)
    ensures
        r@ == (match found {
            Some(s) => s@,
            None => default@,
        }),
{
    match found {
        Some(s) => s.clone(),
        None => default.to_owned(),
    }
}

/// Reads a worker's answer.
pub fn result_from_json(response: &Json) -> (r: Result<PyResult, PyIpcError>)
    ensures
        match r {
            Ok(v) => result_of_json(response@) == Ok::<PyResultView, Seq<char>>(v@),
            Err(e) => result_of_json(response@) matches Err(text) && e@ == PyIpcErrorView::Protocol(
                text,
            ),
        },
{
    let status = match response.get_str("status") {
        Some(status) => status.as_str(),
        None => return Err(protocol("response status must be ok or error")),
    };
    if str_eq(status, "ok") {
        match response.get("result") {
            None => Err(protocol("ok response has no result")),
            Some(result) => match value_from_json(result) {
                Ok(v) => Ok(PyResult::Success(v)),
                Err(e) => Err(e),
            },
        }
    } else if str_eq(status, "error") {
        let error_type = str_or(response.get_str("type"), "PythonError");
        let message = str_or(response.get_str("message"), "");
        let traceback = str_or(response.get_str("traceback"), "");
        Ok(PyResult::Error { error_type, message, traceback })
    } else {
        Err(protocol("response status must be ok or error"))
    }
}

/// A message: the length of the payload, then the payload.
pub open spec fn frame(payload: Seq<u8>) -> Seq<u8> {
    be_bytes(payload.len() as u32) + payload
}

/// The message that carries a payload. A payload whose length takes more than four bytes is
/// refused.
pub fn request_frame(payload: &[u8]) -> (r: Result<Vec<u8>, PyIpcError>)
    ensures
        match r {
            Ok(bytes) => payload@.len() <= u32::MAX && bytes@ == frame(payload@),
            Err(e) => payload@.len() > u32::MAX && e@ == PyIpcErrorView::Protocol(
                "request frame is too large"@,
            ),
        },
{
    if payload.len() > 0xffff_ffff {
        return Err(protocol("request frame is too large"));
    }
    let n: u32 = payload.len() as u32;
    let mut out: Vec<u8> = Vec::new();
    out.push((n / 0x100_0000) as u8);
    out.push((n / 0x1_0000 % 0x100) as u8);
    out.push((n / 0x100 % 0x100) as u8);
    out.push((n % 0x100) as u8);
    out.extend_from_slice(payload);
    assert(out@ =~= frame(payload@));
    Ok(out)
}

/// The message that carries a command to a worker, or why there is none.
pub open spec fn request_of(c: PyCommandView) -> Result<Seq<u8>, PyIpcErrorView> {
    match json_bytes(writable(command_to_json(c))) {
        Err(e) => Err(PyIpcErrorView::Json(e)),
        Ok(payload) => if payload.len() <= u32::MAX {
            Ok(frame(payload))
        } else {
            Err(PyIpcErrorView::Protocol("request frame is too large"@))
        },
    }
}

/// The message that carries a command to a worker.
pub fn request(command: &PyCommand) -> (r: Result<Vec<u8>, PyIpcError>)
    ensures
        match r {
            Ok(bytes) => request_of(command@) == Ok::<Seq<u8>, PyIpcErrorView>(bytes@),
            Err(e) => request_of(command@) == Err::<Seq<u8>, PyIpcErrorView>(e@),
        },
{
    let j = match command_json(command) {
        Ok(j) => j,
        Err(e) => return Err(e),
    };
    match json_to_bytes(&make_writable(&j)) {
        Ok(payload) => request_frame(payload.as_slice()),
        Err(e) => Err(PyIpcError::Json(e)),
    }
}

/// The result that the bytes of an answer write, or why there is none.
pub open spec fn answer_of(body: Seq<u8>) -> Result<PyResultView, PyIpcErrorView> {
    match json_read(body) {
        Err(e) => Err(PyIpcErrorView::Json(e)),
        Ok(j) => match result_of_json(j) {
            Ok(result) => Ok(result),
            Err(text) => Err(PyIpcErrorView::Protocol(text)),
        },
    }
}

/// Reads the bytes of an answer.
pub fn answer(body: &[u8]) -> (r: Result<PyResult, PyIpcError>)
    ensures
        match r {
            Ok(result) => answer_of(body@) == Ok::<PyResultView, PyIpcErrorView>(result@),
            Err(e) => answer_of(body@) == Err::<PyResultView, PyIpcErrorView>(e@),
        },
{
    match json_from_bytes(body) {
        Ok(j) => result_from_json(&j),
        Err(e) => Err(PyIpcError::Json(e)),
    }
}

/// The number of bytes that follow an answer's header. An answer beyond the limit is refused.
pub fn response_size(header: [u8; 4]) -> (r: Result<usize, PyIpcError>)
    ensures
        match r {
            Ok(n) => be_value(header@) <= MAX_FRAME_SIZE && n == be_value(header@),
            Err(e) => be_value(header@) > MAX_FRAME_SIZE && e@ == PyIpcErrorView::Protocol(
                "response frame is too large: "@ + dec_text(be_value(header@) as nat) + " bytes"@,
            ),
        },
{
    let size: u32 = (header[0] as u32) * 0x100_0000 + (header[1] as u32) * 0x1_0000 + (
    header[2] as u32) * 0x100 + header[3] as u32;
    if size > MAX_FRAME_SIZE {
        let mut out = concat("response frame is too large: ", u64_text(size as u64).as_str());
        out.append(" bytes");
        return Err(PyIpcError::Protocol(out));
    }
    Ok(size as usize)
}

/// The header of a message announces the length of its payload.
pub proof fn frame_announces_its_length(payload: Seq<u8>)
    requires
        payload.len() <= u32::MAX,
    ensures
        be_value(frame(payload).take(4)) == payload.len(),
        frame(payload).skip(4) == payload,
{
    lemma_be_bytes(payload.len() as u32);
    assert(frame(payload).take(4) =~= be_bytes(payload.len() as u32));
    assert(frame(payload).skip(4) =~= payload);
}

/// The names of the sessions that have a worker, the results of finished requests, and the path
/// of the worker program.
pub struct PySessionManager {
    pub workers: Table<()>,
    pub results: Table<PyResult>,
    pub worker_path: String,
}

impl PySessionManager {
    /// A manager without workers and results.
    pub fn with_worker(worker: String) -> (r: Self)
        ensures
            r.workers@ == Map::<Seq<char>, ()>::empty(),
            r.results@ == Map::<Seq<char>, PyResult>::empty(),
            r.worker_path == worker,
    {
        PySessionManager { workers: Table::new(), results: Table::new(), worker_path: worker }
    }

    /// The number of sessions that have a worker.
    pub fn worker_count(&self) -> (r: usize)
        ensures
            r == self.workers.rows().len(),
    {
        self.workers.len()
    }

    /// Whether a worker has to be started before a session can be used.
    pub fn needs_worker(&self, session: &str) -> (r: bool)
        ensures
            r == !self.workers@.contains_key(session@),
    {
        !self.workers.contains(session)
    }

    /// Notes that a session's worker runs.
    pub fn worker_started(&mut self, session: &str)
        ensures
            final(self).workers@ == old(self).workers@.insert(session@, ()),
            final(self).results == old(self).results,
            final(self).worker_path == old(self).worker_path,
    {
        let _ = self.workers.insert(session.to_owned(), ());
    }

    /// Takes a worker's answer to a command: a well-formed one becomes the result of the
    /// command's request, whatever result the request had; another is an error and changes
    /// nothing.
    pub fn finish_sink(&mut self, command: &PyCommand, response: &Json) -> (r: Result<
        (),
        PyIpcError,
    >)
        ensures
            final(self).workers == old(self).workers,
            final(self).worker_path == old(self).worker_path,
            match result_of_json(response@) {
                Ok(result) => {
                    &&& r is Ok
                    &&& final(self).results@.contains_key(req_id_of(command@))
                    &&& final(self).results@[req_id_of(command@)]@ == result
                    &&& final(self).results@ == old(self).results@.insert(
                        req_id_of(command@),
                        final(self).results@[req_id_of(command@)],
                    )
                },
                Err(text) => {
                    &&& r matches Err(e) && e@ == PyIpcErrorView::Protocol(text)
                    &&& final(self).results == old(self).results
                },
            },
    {
        match result_from_json(response) {
            Ok(result) => {
                let _ = self.results.insert(command_req_id(command).clone(), result);
                Ok(())
            },
            Err(e) => Err(e),
        }
    }

    /// Takes the bytes of a worker's answer to a command, as `finish_sink` takes the parsed answer.
    pub fn take_answer(&mut self, command: &PyCommand, body: &[u8]) -> (r: Result<(), PyIpcError>)
        ensures
            final(self).workers == old(self).workers,
            final(self).worker_path == old(self).worker_path,
            match answer_of(body@) {
                Ok(result) => {
                    &&& r is Ok
                    &&& final(self).results@.contains_key(req_id_of(command@))
                    &&& final(self).results@[req_id_of(command@)]@ == result
                    &&& final(self).results@ == old(self).results@.insert(
                        req_id_of(command@),
                        final(self).results@[req_id_of(command@)],
                    )
                },
                Err(error) => {
                    &&& r matches Err(e) && e@ == error
                    &&& final(self).results == old(self).results
                },
            },
    {
        match answer(body) {
            Ok(result) => {
                let _ = self.results.insert(command_req_id(command).clone(), result);
                Ok(())
            },
            Err(e) => Err(e),
        }
    }

    /// The result of a query's request, from the finished ones; the session does not matter.
    pub fn execute_source(&self, _session: &str, query: &PyCommand) -> (r: Result<
        PyResult,
        PyIpcError,
    >)
        ensures
            match r {
                Ok(v) => self.results@.contains_key(req_id_of(query@)) && v@
                    == self.results@[req_id_of(query@)]@,
                Err(e) => !self.results@.contains_key(req_id_of(query@)) && e@
                    == PyIpcErrorView::MissingResult(req_id_of(query@)),
            },
    {
        let req_id = command_req_id(query);
        match self.results.get(req_id.as_str()) {
            Some(v) => Ok(v.clone()),
            None => Err(PyIpcError::MissingResult(req_id.clone())),
        }
    }

    /// The command that a sink expression writes.
    pub fn sink_command(&self, command: &Expr) -> (r: Result<PyCommand, PyIpcError>)
        requires
            addressable(command@),
        ensures
            match r {
                Ok(c) => command_of(command@) == Ok::<PyCommandView, Seq<char>>(c@),
                Err(e) => command_of(command@) matches Err(text) && e@ == PyIpcErrorView::Protocol(
                    text,
                ),
            },
    {
        match py_command_from_expr(command) {
            Ok(c) => Ok(c),
            Err(e) => Err(PyIpcError::Protocol(e)),
        }
    }

    /// The encoded result of the request that a query expression names.
    pub fn execute_source_expr(&self, session: &str, query: &Expr) -> (r: Result<
        Vec<u8>,
        PyIpcError,
    >)
        requires
            addressable(query@),
            command_of(query@) matches Ok(c) ==> self.results@.contains_key(req_id_of(c)) ==> fits(
                result_tree(self.results@[req_id_of(c)]@),
            ),
        ensures
            match command_of(query@) {
                Err(text) => r matches Err(e) && e@ == PyIpcErrorView::Protocol(text),
                Ok(c) => if self.results@.contains_key(req_id_of(c)) {
                    r matches Ok(bytes) && bytes@ == encode(
                        result_tree(self.results@[req_id_of(c)]@),
                    )
                } else {
                    r matches Err(e) && e@ == PyIpcErrorView::MissingResult(req_id_of(c))
                },
            },
    {
        let query = match self.sink_command(query) {
            Ok(c) => c,
            Err(e) => return Err(e),
        };
        let result = match self.execute_source(session, &query) {
            Ok(v) => v,
            Err(e) => return Err(e),
        };
        match py_result_to_expr_bytes(&result) {
            Ok(bytes) => Ok(bytes),
            Err(_) => Err(PyIpcError::Io(String::new())),
        }
    }

    /// The result of a request.
    pub fn result(&self, req_id: &str) -> (r: Option<&PyResult>)
        ensures
            match r {
                Some(v) => self.results@.contains_key(req_id@) && *v == self.results@[req_id@],
                None => !self.results@.contains_key(req_id@),
            },
    {
        self.results.get(req_id)
    }

    /// Forgets every result.
    pub fn clear_results(&mut self)
        ensures
            final(self).results@ == Map::<Seq<char>, PyResult>::empty(),
            final(self).workers == old(self).workers,
            final(self).worker_path == old(self).worker_path,
    {
        self.results.clear();
    }
}

} // verus!
