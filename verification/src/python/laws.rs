//! What writing and reading Python values keep.
use vstd::prelude::*;
use vstd::utf8::{encode_utf8, encode_utf8_decode_utf8, encode_utf8_valid_utf8};

use crate::expr::{encodable, encode, read, read_of_encode, ExprTree, Reading};
use crate::json::{member, member_from, text_member, JsonView};
use crate::python::manager::{
    entries_of_json, entries_to_json, entry_of_json, payload, typed, value_of_json, value_to_json,
    values_of_json, values_to_json,
};
use crate::python::parse::{
    args_of, call_method_of, call_of, command_of, entries_from, entry_of, header, kwargs_of, result_of, symbol_at, symbol_text,
    three_symbols, two_symbols, value_of, values_from,
};
use crate::python::protocol::{
    args_tree, command_tree, entry_tree, entry_trees, form, kwargs_tree, result_tree, sym,
    value_tree, value_trees, PyCommandView, PyResultView, PyValueView,
};
use crate::float::is_finite_float;
use crate::float_laws::printing_is_final;
use crate::float_text::{float_form, is_printed};
use crate::text::{i64_is_signed_value, int_text, is_float, lemma_int_text_value};

verus! {

/// Whether a value is one that a `PyValue` can hold, and its floats are in the form in which they
/// print.
pub open spec fn is_value(v: PyValueView) -> bool
    decreases v,
{
    match v {
        PyValueView::Int(i) => i64::MIN <= i <= i64::MAX,
        PyValueView::Float(t) => is_float(encode_utf8(t)) && is_printed(t),
        PyValueView::List(vs) => are_values(vs),
        PyValueView::Dict(es) => are_entries(es),
        _ => true,
    }
}

pub open spec fn are_values(vs: Seq<PyValueView>) -> bool
    decreases vs,
{
    forall|i: int| 0 <= i < vs.len() ==> is_value(#[trigger] vs[i])
}

pub open spec fn are_entries(es: Seq<(Seq<char>, PyValueView)>) -> bool
    decreases es,
{
    forall|i: int| 0 <= i < es.len() ==> is_value((#[trigger] es[i]).1)
}

/// Whether a value is one that a `PyValue` can hold.
pub open spec fn can_hold(v: PyValueView) -> bool
    decreases v,
{
    match v {
        PyValueView::Int(i) => i64::MIN <= i <= i64::MAX,
        PyValueView::List(vs) => can_hold_all(vs),
        PyValueView::Dict(es) => can_hold_entries(es),
        _ => true,
    }
}

pub open spec fn can_hold_all(vs: Seq<PyValueView>) -> bool
    decreases vs,
{
    forall|i: int| 0 <= i < vs.len() ==> can_hold(#[trigger] vs[i])
}

pub open spec fn can_hold_entries(es: Seq<(Seq<char>, PyValueView)>) -> bool
    decreases es,
{
    forall|i: int| 0 <= i < es.len() ==> can_hold((#[trigger] es[i]).1)
}

/// A value with its floats in the form in which they print.
pub open spec fn in_form(v: PyValueView) -> PyValueView
    decreases v,
{
    match v {
        PyValueView::Float(t) => PyValueView::Float(float_form(t)),
        PyValueView::List(vs) => PyValueView::List(values_in_form(vs)),
        PyValueView::Dict(es) => PyValueView::Dict(entries_in_form(es)),
        _ => v,
    }
}

pub open spec fn values_in_form(vs: Seq<PyValueView>) -> Seq<PyValueView>
    decreases vs,
{
    Seq::new(
        vs.len(),
        |i: int|
            if 0 <= i < vs.len() {
                in_form(vs[i])
            } else {
                PyValueView::NoneValue
            },
    )
}

pub open spec fn entries_in_form(es: Seq<(Seq<char>, PyValueView)>) -> Seq<
    (Seq<char>, PyValueView),
>
    decreases es,
{
    Seq::new(
        es.len(),
        |i: int|
            if 0 <= i < es.len() {
                (es[i].0, in_form(es[i].1))
            } else {
                (seq![], PyValueView::NoneValue)
            },
    )
}

/// Whether every float in a value is finite.
pub open spec fn all_finite(v: PyValueView) -> bool
    decreases v,
{
    match v {
        PyValueView::Float(t) => is_finite_float(encode_utf8(t)),
        PyValueView::List(vs) => are_finite(vs),
        PyValueView::Dict(es) => entries_finite(es),
        _ => true,
    }
}

pub open spec fn are_finite(vs: Seq<PyValueView>) -> bool
    decreases vs,
{
    forall|i: int| 0 <= i < vs.len() ==> all_finite(#[trigger] vs[i])
}

pub open spec fn entries_finite(es: Seq<(Seq<char>, PyValueView)>) -> bool
    decreases es,
{
    forall|i: int| 0 <= i < es.len() ==> all_finite((#[trigger] es[i]).1)
}

pub open spec fn is_command(c: PyCommandView) -> bool {
    match c {
        PyCommandView::GetAttr { target, .. } => is_value(target),
        PyCommandView::SetVariable { value, .. } => is_value(value),
        PyCommandView::Call { args, kwargs, .. } => are_values(args) && are_entries(kwargs),
        PyCommandView::CallMethod { target, args, kwargs, .. } => is_value(target) && are_values(
            args,
        ) && are_entries(kwargs),
        _ => true,
    }
}

pub open spec fn is_result(r: PyResultView) -> bool {
    match r {
        PyResultView::Success(v) => is_value(v),
        _ => true,
    }
}

proof fn lemma_symbol(s: Seq<char>)
    ensures
        symbol_text(encode_utf8(s)) == Ok::<Seq<char>, Seq<char>>(s),
{
    encode_utf8_valid_utf8(s);
    encode_utf8_decode_utf8(s);
}

/// The heads of value forms differ from one another.
proof fn lemma_value_heads()
    ensures
        "Int"@ != "Bool"@,
        "Float"@ != "Bool"@,
        "Float"@ != "Int"@,
        "Str"@ != "Bool"@,
        "Str"@ != "Int"@,
        "Str"@ != "Float"@,
        "List"@ != "Bool"@,
        "List"@ != "Int"@,
        "List"@ != "Float"@,
        "List"@ != "Str"@,
        "Dict"@ != "Bool"@,
        "Dict"@ != "Int"@,
        "Dict"@ != "Float"@,
        "Dict"@ != "Str"@,
        "Dict"@ != "List"@,
        "Handle"@ != "Bool"@,
        "Handle"@ != "Int"@,
        "Handle"@ != "Float"@,
        "Handle"@ != "Str"@,
        "Handle"@ != "List"@,
        "Handle"@ != "Dict"@,
        "true"@ != "false"@,
{
    reveal_strlit("Int");
    reveal_strlit("Bool");
    reveal_strlit("Float");
    reveal_strlit("Str");
    reveal_strlit("List");
    reveal_strlit("Dict");
    reveal_strlit("Handle");
    reveal_strlit("true");
    reveal_strlit("false");
    assert("Int"@.len() != "Bool"@.len());
    assert("Float"@.len() != "Bool"@.len());
    assert("Float"@.len() != "Int"@.len());
    assert("Str"@.len() != "Bool"@.len());
    assert("Str"@[0] != "Int"@[0]);
    assert("Str"@.len() != "Float"@.len());
    assert("List"@[0] != "Bool"@[0]);
    assert("List"@.len() != "Int"@.len());
    assert("List"@.len() != "Float"@.len());
    assert("List"@.len() != "Str"@.len());
    assert("Dict"@[0] != "Bool"@[0]);
    assert("Dict"@.len() != "Int"@.len());
    assert("Dict"@.len() != "Float"@.len());
    assert("Dict"@.len() != "Str"@.len());
    assert("Dict"@[0] != "List"@[0]);
    assert("Handle"@.len() != "Bool"@.len());
    assert("Handle"@.len() != "Int"@.len());
    assert("Handle"@.len() != "Float"@.len());
    assert("Handle"@.len() != "Str"@.len());
    assert("Handle"@.len() != "List"@.len());
    assert("Handle"@.len() != "Dict"@.len());
    assert("true"@.len() != "false"@.len());
}

/// The heads of commands and results differ from one another.
proof fn lemma_command_heads()
    ensures
        "ImportFile"@ != "Import"@,
        "GetAttr"@ != "Import"@,
        "GetAttr"@ != "ImportFile"@,
        "GetVariable"@ != "Import"@,
        "GetVariable"@ != "ImportFile"@,
        "GetVariable"@ != "GetAttr"@,
        "SetVariable"@ != "Import"@,
        "SetVariable"@ != "ImportFile"@,
        "SetVariable"@ != "GetAttr"@,
        "SetVariable"@ != "GetVariable"@,
        "Call"@ != "Import"@,
        "Call"@ != "ImportFile"@,
        "Call"@ != "GetAttr"@,
        "Call"@ != "GetVariable"@,
        "Call"@ != "SetVariable"@,
        "CallMethod"@ != "Import"@,
        "CallMethod"@ != "ImportFile"@,
        "CallMethod"@ != "GetAttr"@,
        "CallMethod"@ != "GetVariable"@,
        "CallMethod"@ != "SetVariable"@,
        "CallMethod"@ != "Call"@,
        "DropObject"@ != "Import"@,
        "DropObject"@ != "ImportFile"@,
        "DropObject"@ != "GetAttr"@,
        "DropObject"@ != "GetVariable"@,
        "DropObject"@ != "SetVariable"@,
        "DropObject"@ != "Call"@,
        "DropObject"@ != "CallMethod"@,
        "Error"@ != "Ok"@,
{
    reveal_strlit("ImportFile");
    reveal_strlit("Import");
    reveal_strlit("GetAttr");
    reveal_strlit("GetVariable");
    reveal_strlit("SetVariable");
    reveal_strlit("Call");
    reveal_strlit("CallMethod");
    reveal_strlit("DropObject");
    reveal_strlit("Error");
    reveal_strlit("Ok");
    assert("ImportFile"@.len() != "Import"@.len());
    assert("GetAttr"@.len() != "Import"@.len());
    assert("GetAttr"@.len() != "ImportFile"@.len());
    assert("GetVariable"@.len() != "Import"@.len());
    assert("GetVariable"@.len() != "ImportFile"@.len());
    assert("GetVariable"@.len() != "GetAttr"@.len());
    assert("SetVariable"@.len() != "Import"@.len());
    assert("SetVariable"@.len() != "ImportFile"@.len());
    assert("SetVariable"@.len() != "GetAttr"@.len());
    assert("SetVariable"@[0] != "GetVariable"@[0]);
    assert("Call"@.len() != "Import"@.len());
    assert("Call"@.len() != "ImportFile"@.len());
    assert("Call"@.len() != "GetAttr"@.len());
    assert("Call"@.len() != "GetVariable"@.len());
    assert("Call"@.len() != "SetVariable"@.len());
    assert("CallMethod"@.len() != "Import"@.len());
    assert("CallMethod"@[0] != "ImportFile"@[0]);
    assert("CallMethod"@.len() != "GetAttr"@.len());
    assert("CallMethod"@.len() != "GetVariable"@.len());
    assert("CallMethod"@.len() != "SetVariable"@.len());
    assert("CallMethod"@.len() != "Call"@.len());
    assert("DropObject"@.len() != "Import"@.len());
    assert("DropObject"@[0] != "ImportFile"@[0]);
    assert("DropObject"@.len() != "GetAttr"@.len());
    assert("DropObject"@.len() != "GetVariable"@.len());
    assert("DropObject"@.len() != "SetVariable"@.len());
    assert("DropObject"@.len() != "Call"@.len());
    assert("DropObject"@[0] != "CallMethod"@[0]);
    assert("Error"@.len() != "Ok"@.len());
}

/// Reading the expression of a value gives the value back.
pub proof fn value_roundtrip(v: PyValueView)
    requires
        is_value(v),
    ensures
        value_of(value_tree(v)) == Ok::<PyValueView, Seq<char>>(v),
    decreases v, 0int,
{
    lemma_value_heads();
    match v {
        PyValueView::NoneValue => {
            lemma_symbol("None"@);
        },
        PyValueView::Bool(b) => {
            let s = if b { "true"@ } else { "false"@ };
            lemma_symbol("Bool"@);
            lemma_symbol(s);
        },
        PyValueView::Int(i) => {
            lemma_symbol("Int"@);
            lemma_symbol(int_text(i));
            lemma_int_text_value(i);
            i64_is_signed_value(int_text(i));
        },
        PyValueView::Float(t) => {
            lemma_symbol("Float"@);
            printing_is_final(t);
            lemma_symbol(t);
        },
        PyValueView::Str(s) => {
            lemma_symbol("Str"@);
            lemma_symbol(s);
        },
        PyValueView::List(vs) => {
            lemma_symbol("List"@);
            let items = seq![sym("List"@)] + value_trees(vs);
            values_roundtrip(items, vs, 0);
            assert(vs.skip(0) =~= vs);
        },
        PyValueView::Dict(es) => {
            lemma_symbol("Dict"@);
            let items = seq![sym("Dict"@)] + entry_trees(es);
            entries_roundtrip(
                items,
                es,
                0,
                "expected Entry inside Dict, got "@,
                "Entry value has trailing data"@,
            );
            assert(es.skip(0) =~= es);
        },
        PyValueView::Handle(h) => {
            lemma_symbol("Handle"@);
            lemma_symbol(h);
        },
    }
}

proof fn values_roundtrip(items: Seq<ExprTree>, vs: Seq<PyValueView>, k: int)
    requires
        are_values(vs),
        0 <= k <= vs.len(),
        items.len() == vs.len() + 1,
        forall|i: int| 0 <= i < vs.len() ==> items[i + 1] == value_tree(#[trigger] vs[i]),
    ensures
        values_from(items, k + 1) == Ok::<Seq<PyValueView>, Seq<char>>(vs.skip(k)),
    decreases vs, vs.len() - k,
{
    if k < vs.len() {
        value_roundtrip(vs[k]);
        values_roundtrip(items, vs, k + 1);
        assert(items[k + 1] == value_tree(vs[k]));
        assert(seq![vs[k]] + vs.skip(k + 1) =~= vs.skip(k));
    } else {
        assert(vs.skip(k) =~= seq![]);
    }
}

proof fn entry_roundtrip(
    key: Seq<char>,
    v: PyValueView,
    outside: Seq<char>,
    trailing: Seq<char>,
)
    requires
        is_value(v),
    ensures
        entry_of(entry_tree(key, v), outside, trailing) == Ok::<
            (Seq<char>, PyValueView),
            Seq<char>,
        >((key, v)),
    decreases v, 1int,
{
    lemma_symbol("Entry"@);
    lemma_symbol(key);
    value_roundtrip(v);
    let items = seq![sym("Entry"@)] + seq![sym(key), value_tree(v)];
    assert(items[0] == sym("Entry"@) && items[1] == sym(key) && items[2] == value_tree(v));
}

proof fn entries_roundtrip(
    items: Seq<ExprTree>,
    es: Seq<(Seq<char>, PyValueView)>,
    k: int,
    outside: Seq<char>,
    trailing: Seq<char>,
)
    requires
        are_entries(es),
        0 <= k <= es.len(),
        items.len() == es.len() + 1,
        forall|i: int|
            0 <= i < es.len() ==> items[i + 1] == entry_tree((#[trigger] es[i]).0, es[i].1),
    ensures
        entries_from(items, k + 1, outside, trailing) == Ok::<
            Seq<(Seq<char>, PyValueView)>,
            Seq<char>,
        >(es.skip(k)),
    decreases es, es.len() - k,
{
    if k < es.len() {
        entry_roundtrip(es[k].0, es[k].1, outside, trailing);
        entries_roundtrip(items, es, k + 1, outside, trailing);
        assert(items[k + 1] == entry_tree(es[k].0, es[k].1));
        assert(seq![(es[k].0, es[k].1)] + es.skip(k + 1) =~= es.skip(k));
    } else {
        assert(es.skip(k) =~= seq![]);
    }
}

proof fn args_roundtrip(vs: Seq<PyValueView>)
    requires
        are_values(vs),
    ensures
        args_of(args_tree(vs)) == Ok::<Seq<PyValueView>, Seq<char>>(vs),
{
    lemma_symbol("Args"@);
    let items = seq![sym("Args"@)] + value_trees(vs);
    values_roundtrip(items, vs, 0);
    assert(vs.skip(0) =~= vs);
    assert(items[0] == sym("Args"@));
}

proof fn kwargs_roundtrip(es: Seq<(Seq<char>, PyValueView)>)
    requires
        are_entries(es),
    ensures
        kwargs_of(kwargs_tree(es)) == Ok::<Seq<(Seq<char>, PyValueView)>, Seq<char>>(es),
{
    lemma_symbol("Kwargs"@);
    let items = seq![sym("Kwargs"@)] + entry_trees(es);
    entries_roundtrip(
        items,
        es,
        0,
        "expected Entry inside Kwargs, got "@,
        "Kwargs Entry has trailing data"@,
    );
    assert(es.skip(0) =~= es);
    assert(items[0] == sym("Kwargs"@));
}

/// Reading the expression of a command gives the command back.
pub proof fn command_roundtrip(c: PyCommandView)
    requires
        is_command(c),
    ensures
        command_of(command_tree(c)) == Ok::<PyCommandView, Seq<char>>(c),
{
    match c {
        PyCommandView::Call { .. } => {
            call_roundtrip(c);
        },
        PyCommandView::CallMethod { .. } => {
            call_method_roundtrip(c);
        },
        _ => {
            plain_command_roundtrip(c);
        },
    }
}

proof fn plain_command_roundtrip(c: PyCommandView)
    requires
        is_command(c),
        !(c is Call),
        !(c is CallMethod),
    ensures
        command_of(command_tree(c)) == Ok::<PyCommandView, Seq<char>>(c),
{
    lemma_command_heads();
    match c {
        PyCommandView::Import { req_id, module } => {
            lemma_two("Import"@, req_id, module, "Import command has trailing data"@);
        },
        PyCommandView::ImportFile { req_id, module, path } => {
            lemma_three(
                "ImportFile"@,
                req_id,
                module,
                path,
                "ImportFile command has trailing data"@,
            );
        },
        PyCommandView::GetAttr { req_id, target, attr } => {
            get_attr_roundtrip(req_id, target, attr);
        },
        PyCommandView::GetVariable { req_id, name } => {
            lemma_two("GetVariable"@, req_id, name, "GetVariable command has trailing data"@);
        },
        PyCommandView::SetVariable { req_id, name, value } => {
            set_variable_roundtrip(req_id, name, value);
        },
        PyCommandView::DropObject { req_id, handle } => {
            lemma_two("DropObject"@, req_id, handle, "DropObject command has trailing data"@);
        },
        _ => {},
    }
}

proof fn get_attr_roundtrip(req_id: Seq<char>, target: PyValueView, attr: Seq<char>)
    requires
        is_value(target),
    ensures
        command_of(command_tree(PyCommandView::GetAttr { req_id, target, attr })) == Ok::<
            PyCommandView,
            Seq<char>,
        >(PyCommandView::GetAttr { req_id, target, attr }),
{
    lemma_command_heads();
    let fields = seq![sym(req_id), value_tree(target), sym(attr)];
    lemma_head("GetAttr"@, fields);
    lemma_symbol(req_id);
    value_roundtrip(target);
    lemma_symbol(attr);
    let items = seq![sym("GetAttr"@)] + fields;
    assert(symbol_at(items, 1) == Ok::<Seq<char>, Seq<char>>(req_id));
    assert(items[2] == value_tree(target));
    assert(symbol_at(items, 3) == Ok::<Seq<char>, Seq<char>>(attr));
}

proof fn set_variable_roundtrip(req_id: Seq<char>, name: Seq<char>, value: PyValueView)
    requires
        is_value(value),
    ensures
        command_of(command_tree(PyCommandView::SetVariable { req_id, name, value })) == Ok::<
            PyCommandView,
            Seq<char>,
        >(PyCommandView::SetVariable { req_id, name, value }),
{
    lemma_command_heads();
    let fields = seq![sym(req_id), sym(name), value_tree(value)];
    lemma_head("SetVariable"@, fields);
    lemma_symbol(req_id);
    lemma_symbol(name);
    value_roundtrip(value);
    let items = seq![sym("SetVariable"@)] + fields;
    assert(symbol_at(items, 1) == Ok::<Seq<char>, Seq<char>>(req_id));
    assert(symbol_at(items, 2) == Ok::<Seq<char>, Seq<char>>(name));
    assert(items[3] == value_tree(value));
}

/// A form of two symbols reads back.
proof fn lemma_two(head: Seq<char>, a: Seq<char>, b: Seq<char>, trailing: Seq<char>)
    ensures
        header(form(head, seq![sym(a), sym(b)])) == Ok::<(Seq<char>, Seq<ExprTree>), Seq<char>>(
            (head, seq![sym(head)] + seq![sym(a), sym(b)]),
        ),
        two_symbols(seq![sym(head)] + seq![sym(a), sym(b)], trailing) == Ok::<
            (Seq<char>, Seq<char>),
            Seq<char>,
        >((a, b)),
{
    lemma_head(head, seq![sym(a), sym(b)]);
    lemma_symbol(a);
    lemma_symbol(b);
    let items = seq![sym(head)] + seq![sym(a), sym(b)];
    assert(items[1] == sym(a) && items[2] == sym(b));
}

/// A form of three symbols reads back.
proof fn lemma_three(
    head: Seq<char>,
    a: Seq<char>,
    b: Seq<char>,
    c: Seq<char>,
    trailing: Seq<char>,
)
    ensures
        header(form(head, seq![sym(a), sym(b), sym(c)])) == Ok::<
            (Seq<char>, Seq<ExprTree>),
            Seq<char>,
        >((head, seq![sym(head)] + seq![sym(a), sym(b), sym(c)])),
        three_symbols(seq![sym(head)] + seq![sym(a), sym(b), sym(c)], trailing) == Ok::<
            (Seq<char>, Seq<char>, Seq<char>),
            Seq<char>,
        >((a, b, c)),
{
    lemma_head(head, seq![sym(a), sym(b), sym(c)]);
    lemma_symbol(a);
    lemma_symbol(b);
    lemma_symbol(c);
    let items = seq![sym(head)] + seq![sym(a), sym(b), sym(c)];
    assert(items[1] == sym(a) && items[2] == sym(b) && items[3] == sym(c));
}

proof fn call_roundtrip(c: PyCommandView)
    requires
        is_command(c),
        c is Call,
    ensures
        command_of(command_tree(c)) == Ok::<PyCommandView, Seq<char>>(c),
{
    lemma_command_heads();
    if let PyCommandView::Call { req_id, module, function, args, kwargs } = c {
        let fields = seq![
            sym(req_id),
            sym(module),
            sym(function),
            args_tree(args),
            kwargs_tree(kwargs),
        ];
        lemma_head("Call"@, fields);
        lemma_symbol(req_id);
        lemma_symbol(module);
        lemma_symbol(function);
        args_roundtrip(args);
        kwargs_roundtrip(kwargs);
        let items = seq![sym("Call"@)] + fields;
        assert(symbol_at(items, 1) == Ok::<Seq<char>, Seq<char>>(req_id));
        assert(symbol_at(items, 2) == Ok::<Seq<char>, Seq<char>>(module));
        assert(symbol_at(items, 3) == Ok::<Seq<char>, Seq<char>>(function));
        assert(items[4] == args_tree(args) && items[5] == kwargs_tree(kwargs));
        assert(call_of(items) == Ok::<PyCommandView, Seq<char>>(c));
    }
}

proof fn call_method_roundtrip(c: PyCommandView)
    requires
        is_command(c),
        c is CallMethod,
    ensures
        command_of(command_tree(c)) == Ok::<PyCommandView, Seq<char>>(c),
{
    lemma_command_heads();
    if let PyCommandView::CallMethod { req_id, target, method, args, kwargs } = c {
        let fields = seq![
            sym(req_id),
            value_tree(target),
            sym(method),
            args_tree(args),
            kwargs_tree(kwargs),
        ];
        lemma_head("CallMethod"@, fields);
        lemma_symbol(req_id);
        value_roundtrip(target);
        lemma_symbol(method);
        args_roundtrip(args);
        kwargs_roundtrip(kwargs);
        let items = seq![sym("CallMethod"@)] + fields;
        assert(symbol_at(items, 1) == Ok::<Seq<char>, Seq<char>>(req_id));
        assert(items[2] == value_tree(target));
        assert(symbol_at(items, 3) == Ok::<Seq<char>, Seq<char>>(method));
        assert(items[4] == args_tree(args) && items[5] == kwargs_tree(kwargs));
        assert(call_method_of(items) == Ok::<PyCommandView, Seq<char>>(c));
    }
}

/// The head of a form reads back.
proof fn lemma_head(head: Seq<char>, fields: Seq<ExprTree>)
    ensures
        header(form(head, fields)) == Ok::<(Seq<char>, Seq<ExprTree>), Seq<char>>(
            (head, seq![sym(head)] + fields),
        ),
{
    lemma_symbol(head);
    let items = seq![sym(head)] + fields;
    assert(items[0] == sym(head));
}

proof fn success_roundtrip(v: PyValueView)
    requires
        is_value(v),
    ensures
        result_of(form("Ok"@, seq![value_tree(v)])) == Ok::<PyResultView, Seq<char>>(
            PyResultView::Success(v),
        ),
{
    let fields = seq![value_tree(v)];
    lemma_head("Ok"@, fields);
    value_roundtrip(v);
    let items = seq![sym("Ok"@)] + fields;
    assert(items.len() == 2 && items[1] == value_tree(v));
}

/// Reading the expression of a result gives the result back.
pub proof fn result_roundtrip(r: PyResultView)
    requires
        is_result(r),
    ensures
        result_of(result_tree(r)) == Ok::<PyResultView, Seq<char>>(r),
{
    match r {
        PyResultView::Success(v) => {
            success_roundtrip(v);
        },
        PyResultView::Error { error_type, message, traceback } => {
            lemma_command_heads();
            lemma_three(
                "Error"@,
                error_type,
                message,
                traceback,
                "Error result has trailing data"@,
            );
        },
    }
}

/// The bytes of a value decode to an expression that writes the same value.
pub proof fn value_bytes_roundtrip(v: PyValueView)
    requires
        is_value(v),
        encodable(value_tree(v)),
    ensures
        read(encode(value_tree(v)), 0) matches Reading::Tree(t, end) && end == encode(
            value_tree(v),
        ).len() && value_of(t) == Ok::<PyValueView, Seq<char>>(v),
{
    value_roundtrip(v);
    let s = encode(value_tree(v));
    assert(s.subrange(0, s.len() as int) =~= s);
    read_of_encode(s, 0, value_tree(v));
}

/// The bytes of a command decode to an expression that writes the same command.
pub proof fn command_bytes_roundtrip(c: PyCommandView)
    requires
        is_command(c),
        encodable(command_tree(c)),
    ensures
        read(encode(command_tree(c)), 0) matches Reading::Tree(t, end) && end == encode(
            command_tree(c),
        ).len() && command_of(t) == Ok::<PyCommandView, Seq<char>>(c),
{
    command_roundtrip(c);
    let s = encode(command_tree(c));
    assert(s.subrange(0, s.len() as int) =~= s);
    read_of_encode(s, 0, command_tree(c));
}

/// The bytes of a result decode to an expression that writes the same result.
pub proof fn result_bytes_roundtrip(r: PyResultView)
    requires
        is_result(r),
        encodable(result_tree(r)),
    ensures
        read(encode(result_tree(r)), 0) matches Reading::Tree(t, end) && end == encode(
            result_tree(r),
        ).len() && result_of(t) == Ok::<PyResultView, Seq<char>>(r),
{
    result_roundtrip(r);
    let s = encode(result_tree(r));
    assert(s.subrange(0, s.len() as int) =~= s);
    read_of_encode(s, 0, result_tree(r));
}

/// The type names of JSON forms differ from one another.
proof fn lemma_kinds()
    ensures
        "bool"@ != "none"@,
        "int"@ != "none"@,
        "int"@ != "bool"@,
        "float"@ != "none"@,
        "float"@ != "bool"@,
        "float"@ != "int"@,
        "str"@ != "none"@,
        "str"@ != "bool"@,
        "str"@ != "int"@,
        "str"@ != "float"@,
        "handle"@ != "none"@,
        "handle"@ != "bool"@,
        "handle"@ != "int"@,
        "handle"@ != "float"@,
        "handle"@ != "str"@,
        "list"@ != "none"@,
        "list"@ != "bool"@,
        "list"@ != "int"@,
        "list"@ != "float"@,
        "list"@ != "str"@,
        "list"@ != "handle"@,
        "dict"@ != "none"@,
        "dict"@ != "bool"@,
        "dict"@ != "int"@,
        "dict"@ != "float"@,
        "dict"@ != "str"@,
        "dict"@ != "handle"@,
        "dict"@ != "list"@,
        "value"@ != "type"@,
{
    reveal_strlit("none");
    reveal_strlit("bool");
    reveal_strlit("int");
    reveal_strlit("float");
    reveal_strlit("str");
    reveal_strlit("handle");
    reveal_strlit("list");
    reveal_strlit("dict");
    reveal_strlit("type");
    reveal_strlit("value");
    assert("bool"@[0] != "none"@[0]);
    assert("int"@.len() != "none"@.len());
    assert("int"@.len() != "bool"@.len());
    assert("float"@.len() != "none"@.len());
    assert("float"@.len() != "bool"@.len());
    assert("float"@.len() != "int"@.len());
    assert("str"@.len() != "none"@.len());
    assert("str"@.len() != "bool"@.len());
    assert("str"@[0] != "int"@[0]);
    assert("str"@.len() != "float"@.len());
    assert("handle"@.len() != "none"@.len());
    assert("handle"@.len() != "bool"@.len());
    assert("handle"@.len() != "int"@.len());
    assert("handle"@.len() != "float"@.len());
    assert("handle"@.len() != "str"@.len());
    assert("list"@[0] != "none"@[0]);
    assert("list"@[0] != "bool"@[0]);
    assert("list"@.len() != "int"@.len());
    assert("list"@.len() != "float"@.len());
    assert("list"@.len() != "str"@.len());
    assert("list"@.len() != "handle"@.len());
    assert("dict"@[0] != "none"@[0]);
    assert("dict"@[0] != "bool"@[0]);
    assert("dict"@.len() != "int"@.len());
    assert("dict"@.len() != "float"@.len());
    assert("dict"@.len() != "str"@.len());
    assert("dict"@.len() != "handle"@.len());
    assert("dict"@[0] != "list"@[0]);
    assert("value"@.len() != "type"@.len());
}

proof fn lemma_typed(kind: Seq<char>, value: JsonView)
    ensures
        text_member(typed(kind, value), "type"@) == Some(kind),
        member(typed(kind, value), "value"@) == Some(value),
        payload(typed(kind, value)) == value,
{
    lemma_kinds();
    reveal_with_fuel(member_from, 3);
    let members = seq![("type"@, JsonView::Str(kind)), ("value"@, value)];
    assert(members[0].0 == "type"@ && members[1].0 == "value"@);
    assert(member_from(members, "type"@, 0) == Some(JsonView::Str(kind)));
    assert(member_from(members, "value"@, 0) == Some(value));
}

/// Reading the JSON form of a value gives the value back, with its floats in the form in which they
/// print, if every float in it is finite.
pub proof fn json_reads_floats_as_printed(v: PyValueView)
    requires
        can_hold(v),
        all_finite(v),
    ensures
        value_of_json(value_to_json(v)) == Ok::<PyValueView, Seq<char>>(in_form(v)),
    decreases v, 0int,
{
    lemma_kinds();
    match v {
        PyValueView::NoneValue => {
            lemma_typed("none"@, JsonView::Null);
        },
        PyValueView::Bool(b) => {
            lemma_typed("bool"@, JsonView::Bool(b));
        },
        PyValueView::Int(i) => {
            lemma_typed("int"@, JsonView::Int(i));
        },
        PyValueView::Float(t) => {
            lemma_typed("float"@, JsonView::Float(t));
        },
        PyValueView::Str(s) => {
            lemma_typed("str"@, JsonView::Str(s));
        },
        PyValueView::Handle(h) => {
            lemma_typed("handle"@, JsonView::Str(h));
        },
        PyValueView::List(vs) => {
            lemma_typed("list"@, JsonView::Array(values_to_json(vs)));
            json_values_roundtrip(vs, 0);
            assert(values_in_form(vs).skip(0) =~= values_in_form(vs));
        },
        PyValueView::Dict(es) => {
            lemma_typed("dict"@, JsonView::Array(entries_to_json(es)));
            json_entries_roundtrip(es, 0);
            assert(entries_in_form(es).skip(0) =~= entries_in_form(es));
        },
    }
}

proof fn json_values_roundtrip(vs: Seq<PyValueView>, k: int)
    requires
        can_hold_all(vs),
        are_finite(vs),
        0 <= k <= vs.len(),
    ensures
        values_of_json(values_to_json(vs), k) == Ok::<Seq<PyValueView>, Seq<char>>(
            values_in_form(vs).skip(k),
        ),
    decreases vs, vs.len() - k,
{
    if k < vs.len() {
        json_reads_floats_as_printed(vs[k]);
        json_values_roundtrip(vs, k + 1);
        assert(values_to_json(vs)[k] == value_to_json(vs[k]));
        let read = values_in_form(vs);
        assert(seq![in_form(vs[k])] + read.skip(k + 1) =~= read.skip(k));
    } else {
        assert(values_in_form(vs).skip(k) =~= seq![]);
    }
}

proof fn json_entries_roundtrip(es: Seq<(Seq<char>, PyValueView)>, k: int)
    requires
        can_hold_entries(es),
        entries_finite(es),
        0 <= k <= es.len(),
    ensures
        entries_of_json(entries_to_json(es), k) == Ok::<
            Seq<(Seq<char>, PyValueView)>,
            Seq<char>,
        >(entries_in_form(es).skip(k)),
    decreases es, es.len() - k,
{
    if k < es.len() {
        json_reads_floats_as_printed(es[k].1);
        json_entries_roundtrip(es, k + 1);
        let pair = seq![JsonView::Str(es[k].0), value_to_json(es[k].1)];
        assert(entries_to_json(es)[k] == JsonView::Array(pair));
        assert(pair[0] == JsonView::Str(es[k].0) && pair[1] == value_to_json(es[k].1));
        assert(entry_of_json(JsonView::Array(pair)) == Ok::<(Seq<char>, PyValueView), Seq<char>>(
            (es[k].0, in_form(es[k].1)),
        ));
        let read = entries_in_form(es);
        assert(seq![(es[k].0, in_form(es[k].1))] + read.skip(k + 1) =~= read.skip(k));
    } else {
        assert(entries_in_form(es).skip(k) =~= seq![]);
    }
}

/// A value whose floats are in the form in which they print is in that form.
proof fn lemma_in_form(v: PyValueView)
    requires
        is_value(v),
    ensures
        can_hold(v),
        in_form(v) == v,
    decreases v,
{
    match v {
        PyValueView::List(vs) => {
            assert forall|i: int| 0 <= i < vs.len() implies can_hold(#[trigger] vs[i]) && in_form(
                vs[i],
            ) == vs[i] by {
                lemma_in_form(vs[i]);
            }
            assert(values_in_form(vs) =~= vs);
        },
        PyValueView::Dict(es) => {
            assert forall|i: int| 0 <= i < es.len() implies can_hold((#[trigger] es[i]).1)
                && in_form(es[i].1) == es[i].1 by {
                lemma_in_form(es[i].1);
            }
            assert(entries_in_form(es) =~= es);
        },
        _ => {},
    }
}

/// Reading the JSON form of a value gives the value back, if every float in it is finite and in the
/// form in which it prints.
pub proof fn json_roundtrip(v: PyValueView)
    requires
        is_value(v),
        all_finite(v),
    ensures
        value_of_json(value_to_json(v)) == Ok::<PyValueView, Seq<char>>(v),
{
    lemma_in_form(v);
    json_reads_floats_as_printed(v);
}

/// A value that holds a float which is not finite does not come back through JSON: reading its
/// form is refused.
pub proof fn json_refuses_infinite(v: PyValueView)
    requires
        can_hold(v),
        !all_finite(v),
    ensures
        value_of_json(value_to_json(v)) == Err::<PyValueView, Seq<char>>("invalid float"@),
    decreases v, 0int,
{
    lemma_kinds();
    match v {
        PyValueView::Float(t) => {
            lemma_typed("float"@, JsonView::Null);
        },
        PyValueView::List(vs) => {
            lemma_typed("list"@, JsonView::Array(values_to_json(vs)));
            let i = choose|i: int| 0 <= i < vs.len() && !all_finite(#[trigger] vs[i]);
            json_values_refused(vs, 0, i);
        },
        PyValueView::Dict(es) => {
            lemma_typed("dict"@, JsonView::Array(entries_to_json(es)));
            let i = choose|i: int| 0 <= i < es.len() && !all_finite((#[trigger] es[i]).1);
            json_entries_refused(es, 0, i);
        },
        _ => {},
    }
}

proof fn json_values_refused(vs: Seq<PyValueView>, k: int, i: int)
    requires
        can_hold_all(vs),
        0 <= k <= i < vs.len(),
        !all_finite(vs[i]),
    ensures
        values_of_json(values_to_json(vs), k) == Err::<Seq<PyValueView>, Seq<char>>(
            "invalid float"@,
        ),
    decreases vs, vs.len() - k,
{
    assert(values_to_json(vs)[k] == value_to_json(vs[k]));
    if all_finite(vs[k]) {
        json_reads_floats_as_printed(vs[k]);
        json_values_refused(vs, k + 1, i);
    } else {
        json_refuses_infinite(vs[k]);
    }
}

proof fn json_entries_refused(es: Seq<(Seq<char>, PyValueView)>, k: int, i: int)
    requires
        can_hold_entries(es),
        0 <= k <= i < es.len(),
        !all_finite(es[i].1),
    ensures
        entries_of_json(entries_to_json(es), k) == Err::<
            Seq<(Seq<char>, PyValueView)>,
            Seq<char>,
        >("invalid float"@),
    decreases es, es.len() - k,
{
    let pair = seq![JsonView::Str(es[k].0), value_to_json(es[k].1)];
    assert(entries_to_json(es)[k] == JsonView::Array(pair));
    assert(pair[0] == JsonView::Str(es[k].0) && pair[1] == value_to_json(es[k].1));
    if all_finite(es[k].1) {
        json_reads_floats_as_printed(es[k].1);
        assert(entry_of_json(JsonView::Array(pair)) == Ok::<(Seq<char>, PyValueView), Seq<char>>(
            (es[k].0, in_form(es[k].1)),
        ));
        json_entries_refused(es, k + 1, i);
    } else {
        json_refuses_infinite(es[k].1);
        assert(entry_of_json(JsonView::Array(pair)) == Err::<(Seq<char>, PyValueView), Seq<char>>(
            "invalid float"@,
        ));
    }
}

} // verus!
