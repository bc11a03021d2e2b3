//! What a worker is told and what is understood of its answers: every field of a command goes out
//! under its own name, no two commands look alike, and answers are read by name.
use vstd::prelude::*;

use crate::json::{member, member_from, text_member, JsonView};
use crate::python::laws::{
    all_finite, are_entries, are_finite, are_values, can_hold, entries_finite, in_form,
    is_command, is_value, json_reads_floats_as_printed, json_roundtrip,
};
use crate::python::manager::{
    command_to_json, entries_to_json, req_id_of, result_of_json, value_of_json, value_to_json,
    values_to_json,
};
use crate::python::protocol::{PyCommandView, PyResultView, PyValueView};

verus! {

/// A member is found by its name, at its first place, wherever that is; a name that no member has
/// is not found, and only objects have members.
pub proof fn members_are_found_by_name(members: Seq<(Seq<char>, JsonView)>, name: Seq<char>, i: int)
    ensures
        0 <= i < members.len() && members[i].0 == name && (forall|k: int|
            0 <= k < i ==> (#[trigger] members[k]).0 != name) ==> member(
            JsonView::Object(members),
            name,
        ) == Some(members[i].1),
        (forall|k: int| 0 <= k < members.len() ==> (#[trigger] members[k]).0 != name) ==> member(
            JsonView::Object(members),
            name,
        ) is None,
{
    if 0 <= i < members.len() && members[i].0 == name && (forall|k: int|
        0 <= k < i ==> (#[trigger] members[k]).0 != name) {
        lemma_member_at(members, name, 0, i);
    }
    if forall|k: int| 0 <= k < members.len() ==> (#[trigger] members[k]).0 != name {
        lemma_no_member(members, name, 0);
    }
}

proof fn lemma_member_at(members: Seq<(Seq<char>, JsonView)>, name: Seq<char>, k: int, i: int)
    requires
        0 <= k <= i < members.len(),
        members[i].0 == name,
        forall|j: int| 0 <= j < i ==> (#[trigger] members[j]).0 != name,
    ensures
        member_from(members, name, k) == Some(members[i].1),
    decreases i - k,
{
    if k < i {
        assert(members[k].0 != name);
        lemma_member_at(members, name, k + 1, i);
    }
}

proof fn lemma_no_member(members: Seq<(Seq<char>, JsonView)>, name: Seq<char>, k: int)
    requires
        0 <= k <= members.len(),
        forall|j: int| 0 <= j < members.len() ==> (#[trigger] members[j]).0 != name,
    ensures
        member_from(members, name, k) is None,
    decreases members.len() - k,
{
    if k < members.len() {
        assert(members[k].0 != name);
        lemma_no_member(members, name, k + 1);
    }
}

/// Whether an object has a member of a name and value.
pub open spec fn says(j: JsonView, name: Seq<char>, value: JsonView) -> bool {
    j matches JsonView::Object(ms) && ms.contains((name, value))
}

/// How many members an object has.
pub open spec fn width(j: JsonView) -> nat {
    match j {
        JsonView::Object(ms) => ms.len(),
        _ => 0,
    }
}

proof fn lemma_says(j: JsonView, i: int)
    requires
        j is Object,
        0 <= i < j->Object_0.len(),
    ensures
        says(j, j->Object_0[i].0, j->Object_0[i].1),
{
    assert(j->Object_0.contains(j->Object_0[i]));
}

proof fn lemma_says_all(j: JsonView)
    requires
        j is Object,
    ensures
        forall|i: int| #![trigger j->Object_0[i]]
            0 <= i < j->Object_0.len() ==> says(j, j->Object_0[i].0, j->Object_0[i].1),
{
    assert forall|i: int| #![trigger j->Object_0[i]] 0 <= i < j->Object_0.len() implies says(
        j,
        j->Object_0[i].0,
        j->Object_0[i].1,
    ) by {
        lemma_says(j, i);
    }
}

/// A worker is told each field of a command under its own name, what the command is, and nothing
/// else.
#[verifier::rlimit(40)]
pub proof fn every_field_of_a_command_is_sent(c: PyCommandView)
    ensures
        says(command_to_json(c), "req_id"@, JsonView::Str(req_id_of(c))),
        c matches PyCommandView::Import { req_id, module } ==> {
            let j = command_to_json(c);
            &&& width(j) == 3
            &&& says(j, "command"@, JsonView::Str("import"@))
            &&& says(j, "req_id"@, JsonView::Str(req_id))
            &&& says(j, "module"@, JsonView::Str(module))
        },
        c matches PyCommandView::ImportFile { req_id, module, path } ==> {
            let j = command_to_json(c);
            &&& width(j) == 4
            &&& says(j, "command"@, JsonView::Str("import-file"@))
            &&& says(j, "req_id"@, JsonView::Str(req_id))
            &&& says(j, "module"@, JsonView::Str(module))
            &&& says(j, "path"@, JsonView::Str(path))
        },
        c matches PyCommandView::GetAttr { req_id, target, attr } ==> {
            let j = command_to_json(c);
            &&& width(j) == 4
            &&& says(j, "command"@, JsonView::Str("getattr"@))
            &&& says(j, "req_id"@, JsonView::Str(req_id))
            &&& says(j, "target"@, value_to_json(target))
            &&& says(j, "attr"@, JsonView::Str(attr))
        },
        c matches PyCommandView::GetVariable { req_id, name } ==> {
            let j = command_to_json(c);
            &&& width(j) == 3
            &&& says(j, "command"@, JsonView::Str("get-variable"@))
            &&& says(j, "req_id"@, JsonView::Str(req_id))
            &&& says(j, "name"@, JsonView::Str(name))
        },
        c matches PyCommandView::SetVariable { req_id, name, value } ==> {
            let j = command_to_json(c);
            &&& width(j) == 4
            &&& says(j, "command"@, JsonView::Str("set-variable"@))
            &&& says(j, "req_id"@, JsonView::Str(req_id))
            &&& says(j, "name"@, JsonView::Str(name))
            &&& says(j, "value"@, value_to_json(value))
        },
        c matches PyCommandView::Call { req_id, module, function, args, kwargs } ==> {
            let j = command_to_json(c);
            &&& width(j) == 6
            &&& says(j, "command"@, JsonView::Str("call"@))
            &&& says(j, "req_id"@, JsonView::Str(req_id))
            &&& says(j, "module"@, JsonView::Str(module))
            &&& says(j, "function"@, JsonView::Str(function))
            &&& says(j, "args"@, JsonView::Array(values_to_json(args)))
            &&& says(j, "kwargs"@, JsonView::Array(entries_to_json(kwargs)))
        },
        c matches PyCommandView::CallMethod { req_id, target, method, args, kwargs } ==> {
            let j = command_to_json(c);
            &&& width(j) == 6
            &&& says(j, "command"@, JsonView::Str("call-method"@))
            &&& says(j, "req_id"@, JsonView::Str(req_id))
            &&& says(j, "target"@, value_to_json(target))
            &&& says(j, "method"@, JsonView::Str(method))
            &&& says(j, "args"@, JsonView::Array(values_to_json(args)))
            &&& says(j, "kwargs"@, JsonView::Array(entries_to_json(kwargs)))
        },
        c matches PyCommandView::DropObject { req_id, handle } ==> {
            let j = command_to_json(c);
            &&& width(j) == 3
            &&& says(j, "command"@, JsonView::Str("drop-object"@))
            &&& says(j, "req_id"@, JsonView::Str(req_id))
            &&& says(j, "handle"@, JsonView::Str(handle))
        },
{
    let j = command_to_json(c);
    lemma_says_all(j);
    let ms = j->Object_0;
    assert(ms[0].0 == "command"@);
    assert(ms[1] == ("req_id"@, JsonView::Str(req_id_of(c))));
    assert(ms[2].0 == ms[2].0);
    if ms.len() > 3 {
        assert(ms[3].0 == ms[3].0);
    }
    if ms.len() > 4 {
        assert(ms[4].0 == ms[4].0);
        assert(ms[5].0 == ms[5].0);
    }
}

/// A value is sent as its kind and its content: lists item by item, dictionaries entry by entry,
/// each key before its value.
pub proof fn a_value_is_sent_with_its_kind(v: PyValueView)
    ensures
        width(value_to_json(v)) == 2,
        v is NoneValue ==> says(value_to_json(v), "type"@, JsonView::Str("none"@)),
        v matches PyValueView::Bool(b) ==> says(value_to_json(v), "type"@, JsonView::Str("bool"@))
            && says(value_to_json(v), "value"@, JsonView::Bool(b)),
        v matches PyValueView::Int(i) ==> says(value_to_json(v), "type"@, JsonView::Str("int"@))
            && says(value_to_json(v), "value"@, JsonView::Int(i)),
        v is Float ==> says(value_to_json(v), "type"@, JsonView::Str("float"@)),
        v matches PyValueView::Float(t) ==> all_finite(v) ==> says(
            value_to_json(v),
            "value"@,
            JsonView::Float(t),
        ),
        v is Float && !all_finite(v) ==> says(value_to_json(v), "value"@, JsonView::Null),
        v matches PyValueView::Str(s) ==> says(value_to_json(v), "type"@, JsonView::Str("str"@))
            && says(value_to_json(v), "value"@, JsonView::Str(s)),
        v matches PyValueView::Handle(h) ==> says(
            value_to_json(v),
            "type"@,
            JsonView::Str("handle"@),
        ) && says(value_to_json(v), "value"@, JsonView::Str(h)),
        v matches PyValueView::List(vs) ==> says(value_to_json(v), "type"@, JsonView::Str("list"@))
            && says(value_to_json(v), "value"@, JsonView::Array(values_to_json(vs))),
        v matches PyValueView::Dict(es) ==> says(value_to_json(v), "type"@, JsonView::Str("dict"@))
            && says(value_to_json(v), "value"@, JsonView::Array(entries_to_json(es))),
{
    let j = value_to_json(v);
    lemma_says_all(j);
    let ms = j->Object_0;
    assert(ms[0].0 == "type"@ && ms[1].0 == "value"@);
}

/// The items of a list and the entries of a dictionary are sent one for one and in order.
pub proof fn items_are_sent_one_for_one(
    vs: Seq<PyValueView>,
    es: Seq<(Seq<char>, PyValueView)>,
    i: int,
)
    ensures
        values_to_json(vs).len() == vs.len(),
        entries_to_json(es).len() == es.len(),
        0 <= i < vs.len() ==> values_to_json(vs)[i] == value_to_json(vs[i]),
        0 <= i < es.len() ==> (entries_to_json(es)[i] matches JsonView::Array(pair) && pair.len()
            == 2 && pair[0] == JsonView::Str(es[i].0) && pair[1] == value_to_json(es[i].1)),
{
}

/// Whether every float in a command is finite.
pub open spec fn command_finite(c: PyCommandView) -> bool {
    match c {
        PyCommandView::GetAttr { target, .. } => all_finite(target),
        PyCommandView::SetVariable { value, .. } => all_finite(value),
        PyCommandView::Call { args, kwargs, .. } => are_finite(args) && entries_finite(kwargs),
        PyCommandView::CallMethod { target, args, kwargs, .. } => all_finite(target) && are_finite(
            args,
        ) && entries_finite(kwargs),
        _ => true,
    }
}

/// Two values are sent alike only where they are the same value.
pub proof fn no_two_values_are_sent_alike(a: PyValueView, b: PyValueView)
    requires
        is_value(a),
        is_value(b),
        all_finite(a),
        all_finite(b),
        value_to_json(a) == value_to_json(b),
    ensures
        a == b,
{
    json_roundtrip(a);
    json_roundtrip(b);
}

proof fn lemma_lists_alike(a: Seq<PyValueView>, b: Seq<PyValueView>)
    requires
        are_values(a),
        are_values(b),
        are_finite(a),
        are_finite(b),
        values_to_json(a) == values_to_json(b),
    ensures
        a == b,
{
    assert(values_to_json(a).len() == a.len() && values_to_json(b).len() == b.len());
    assert forall|i: int| 0 <= i < a.len() implies a[i] == b[i] by {
        assert(values_to_json(a)[i] == value_to_json(a[i]));
        assert(values_to_json(b)[i] == value_to_json(b[i]));
        no_two_values_are_sent_alike(a[i], b[i]);
    }
    assert(a =~= b);
}

proof fn lemma_entries_alike(a: Seq<(Seq<char>, PyValueView)>, b: Seq<(Seq<char>, PyValueView)>)
    requires
        are_entries(a),
        are_entries(b),
        entries_finite(a),
        entries_finite(b),
        entries_to_json(a) == entries_to_json(b),
    ensures
        a == b,
{
    assert(entries_to_json(a).len() == a.len() && entries_to_json(b).len() == b.len());
    assert forall|i: int| 0 <= i < a.len() implies a[i] == b[i] by {
        let x = seq![JsonView::Str(a[i].0), value_to_json(a[i].1)];
        let y = seq![JsonView::Str(b[i].0), value_to_json(b[i].1)];
        assert(entries_to_json(a)[i] == JsonView::Array(x));
        assert(entries_to_json(b)[i] == JsonView::Array(y));
        assert(x[0] == y[0] && x[1] == y[1]);
        no_two_values_are_sent_alike(a[i].1, b[i].1);
    }
    assert(a =~= b);
}

proof fn lemma_command_names()
    ensures
        "import"@.len() == 6,
        "import-file"@.len() == 11,
        "getattr"@.len() == 7,
        "get-variable"@.len() == 12,
        "set-variable"@.len() == 12,
        "call"@.len() == 4,
        "call-method"@.len() == 11,
        "drop-object"@.len() == 11,
        "get-variable"@ != "set-variable"@,
        "import-file"@ != "call-method"@,
        "import-file"@ != "drop-object"@,
        "call-method"@ != "drop-object"@,
{
    reveal_strlit("import");
    reveal_strlit("import-file");
    reveal_strlit("getattr");
    reveal_strlit("get-variable");
    reveal_strlit("set-variable");
    reveal_strlit("call");
    reveal_strlit("call-method");
    reveal_strlit("drop-object");
    assert("get-variable"@[0] != "set-variable"@[0]);
    assert("import-file"@[0] != "call-method"@[0]);
    assert("import-file"@[0] != "drop-object"@[0]);
    assert("call-method"@[0] != "drop-object"@[0]);
}

/// The JSON form of a command determines the command: two commands whose floats are finite are sent
/// alike only where they are the same command, field by field.
#[verifier::rlimit(60)]
pub proof fn no_two_commands_are_sent_alike(a: PyCommandView, b: PyCommandView)
    requires
        is_command(a),
        is_command(b),
        command_finite(a),
        command_finite(b),
        command_to_json(a) == command_to_json(b),
    ensures
        a == b,
{
    lemma_command_names();
    let x = command_to_json(a)->Object_0;
    let y = command_to_json(b)->Object_0;
    assert(x[0] == y[0] && x[1] == y[1] && x[2] == y[2]);
    assert(x.len() == y.len());
    if x.len() > 3 {
        assert(x[3] == y[3]);
    }
    if x.len() > 4 {
        assert(x[4] == y[4] && x[5] == y[5]);
    }
    match a {
        PyCommandView::GetAttr { target, .. } => {
            no_two_values_are_sent_alike(target, b->GetAttr_target);
        },
        PyCommandView::SetVariable { value, .. } => {
            no_two_values_are_sent_alike(value, b->SetVariable_value);
        },
        PyCommandView::Call { args, kwargs, .. } => {
            lemma_lists_alike(args, b->Call_args);
            lemma_entries_alike(kwargs, b->Call_kwargs);
        },
        PyCommandView::CallMethod { target, args, kwargs, .. } => {
            no_two_values_are_sent_alike(target, b->CallMethod_target);
            lemma_lists_alike(args, b->CallMethod_args);
            lemma_entries_alike(kwargs, b->CallMethod_kwargs);
        },
        _ => {},
    }
}

/// An answer of success gives back the value that was sent, with its floats as they print.
pub proof fn a_success_is_read_back(v: PyValueView, answer: Seq<(Seq<char>, JsonView)>, s: int, r: int)
    requires
        can_hold(v),
        all_finite(v),
        0 <= s < answer.len(),
        0 <= r < answer.len(),
        answer[s] == ("status"@, JsonView::Str("ok"@)),
        answer[r] == ("result"@, value_to_json(v)),
        forall|k: int| 0 <= k < answer.len() && k != s ==> (#[trigger] answer[k]).0 != "status"@,
        forall|k: int| 0 <= k < answer.len() && k != r ==> (#[trigger] answer[k]).0 != "result"@,
    ensures
        result_of_json(JsonView::Object(answer)) == Ok::<PyResultView, Seq<char>>(
            PyResultView::Success(in_form(v)),
        ),
{
    members_are_found_by_name(answer, "status"@, s);
    members_are_found_by_name(answer, "result"@, r);
    json_reads_floats_as_printed(v);
}

/// An answer of failure gives the error's type, message and traceback, each from its own member;
/// where one is missing or no text, the type is `PythonError` and the other two are empty.
pub proof fn a_failure_is_read_field_by_field(answer: Seq<(Seq<char>, JsonView)>, s: int)
    requires
        0 <= s < answer.len(),
        answer[s] == ("status"@, JsonView::Str("error"@)),
        forall|k: int| 0 <= k < answer.len() && k != s ==> (#[trigger] answer[k]).0 != "status"@,
    ensures
        result_of_json(JsonView::Object(answer)) matches Ok(
            PyResultView::Error { error_type, message, traceback },
        ) && {
            let j = JsonView::Object(answer);
            &&& member(j, "type"@) matches Some(JsonView::Str(t)) ==> error_type == t
            &&& !(member(j, "type"@) matches Some(JsonView::Str(_))) ==> error_type
                == "PythonError"@
            &&& member(j, "message"@) matches Some(JsonView::Str(t)) ==> message == t
            &&& !(member(j, "message"@) matches Some(JsonView::Str(_))) ==> message.len() == 0
            &&& member(j, "traceback"@) matches Some(JsonView::Str(t)) ==> traceback == t
            &&& !(member(j, "traceback"@) matches Some(JsonView::Str(_))) ==> traceback.len() == 0
        },
{
    members_are_found_by_name(answer, "status"@, s);
    reveal_strlit("error");
    reveal_strlit("ok");
    reveal_strlit("");
    assert("error"@.len() != "ok"@.len());
}

/// An answer without a status, or with another one than `ok` and `error`, is refused, and so is a
/// success without a result.
pub proof fn other_answers_are_refused(j: JsonView)
    ensures
        text_member(j, "status"@) is None ==> result_of_json(j) is Err,
        text_member(j, "status"@) matches Some(s) && s != "ok"@ && s != "error"@ ==> result_of_json(
            j,
        ) is Err,
        text_member(j, "status"@) == Some("ok"@) && member(j, "result"@) is None
            ==> result_of_json(j) is Err,
        text_member(j, "status"@) == Some("ok"@) && (member(j, "result"@) matches Some(v)
            && value_of_json(v) is Err) ==> result_of_json(j) is Err,
        result_of_json(j) matches Ok(PyResultView::Success(_)) ==> text_member(j, "status"@)
            == Some("ok"@),
{
}

} // verus!
