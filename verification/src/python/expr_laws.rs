//! The expressions of Python commands, values and results, item by item, and that nothing is read
//! out of an expression that has more or fewer items than it should.
use vstd::prelude::*;
use vstd::utf8::{decode_utf8, encode_utf8, valid_utf8};

use crate::expr::ExprTree;
use crate::float_text::plain_form;
use crate::python::parse::{
    args_of, command_of, entries_from, entry_of, kwargs_of, result_of, value_of, values_from,
};
use crate::python::protocol::{
    args_tree, command_tree, entry_trees, form, kwargs_tree, result_tree, sym, value_tree,
    value_trees,
    PyCommandView, PyResultView, PyValueView,
};
use crate::text::int_text;

verus! {

/// Whether an item of a list is the symbol of a text.
pub open spec fn names(t: ExprTree, k: int, s: Seq<char>) -> bool {
    t matches ExprTree::List(items) && 0 <= k < items.len() && items[k] == ExprTree::Symbol(
        encode_utf8(s),
    )
}

/// Whether an item of a list is an expression.
pub open spec fn holds(t: ExprTree, k: int, e: ExprTree) -> bool {
    t matches ExprTree::List(items) && 0 <= k < items.len() && items[k] == e
}

/// How many items a list has.
pub open spec fn arity(t: ExprTree) -> nat {
    match t {
        ExprTree::List(items) => items.len(),
        _ => 0,
    }
}

proof fn lemma_form_items(head: Seq<char>, fields: Seq<ExprTree>)
    ensures
        arity(form(head, fields)) == fields.len() + 1,
        names(form(head, fields), 0, head),
        forall|k: int| #![trigger fields[k]]
            0 <= k < fields.len() ==> holds(form(head, fields), k + 1, fields[k]),
{
}

/// A command of texts is written as a list of its name and its fields, in their order.
pub proof fn a_command_of_texts_is_written_field_by_field(c: PyCommandView)
    ensures
        c matches PyCommandView::Import { req_id, module } ==> {
            let t = command_tree(c);
            &&& arity(t) == 3
            &&& names(t, 0, "Import"@)
            &&& names(t, 1, req_id)
            &&& names(t, 2, module)
        },
        c matches PyCommandView::ImportFile { req_id, module, path } ==> {
            let t = command_tree(c);
            &&& arity(t) == 4
            &&& names(t, 0, "ImportFile"@)
            &&& names(t, 1, req_id)
            &&& names(t, 2, module)
            &&& names(t, 3, path)
        },
        c matches PyCommandView::GetVariable { req_id, name } ==> {
            let t = command_tree(c);
            &&& arity(t) == 3
            &&& names(t, 0, "GetVariable"@)
            &&& names(t, 1, req_id)
            &&& names(t, 2, name)
        },
        c matches PyCommandView::DropObject { req_id, handle } ==> {
            let t = command_tree(c);
            &&& arity(t) == 3
            &&& names(t, 0, "DropObject"@)
            &&& names(t, 1, req_id)
            &&& names(t, 2, handle)
        },
{
    match c {
        PyCommandView::Import { req_id, module } => {
            lemma_form_items("Import"@, seq![sym(req_id), sym(module)]);
        },
        PyCommandView::ImportFile { req_id, module, path } => {
            lemma_form_items("ImportFile"@, seq![sym(req_id), sym(module), sym(path)]);
        },
        PyCommandView::GetVariable { req_id, name } => {
            lemma_form_items("GetVariable"@, seq![sym(req_id), sym(name)]);
        },
        PyCommandView::DropObject { req_id, handle } => {
            lemma_form_items("DropObject"@, seq![sym(req_id), sym(handle)]);
        },
        _ => {},
    }
}

/// A command with a value is written as a list of its name and its fields, in their order.
pub proof fn a_command_of_a_value_is_written_field_by_field(c: PyCommandView)
    ensures
        c matches PyCommandView::GetAttr { req_id, target, attr } ==> {
            let t = command_tree(c);
            &&& arity(t) == 4
            &&& names(t, 0, "GetAttr"@)
            &&& names(t, 1, req_id)
            &&& holds(t, 2, value_tree(target))
            &&& names(t, 3, attr)
        },
        c matches PyCommandView::SetVariable { req_id, name, value } ==> {
            let t = command_tree(c);
            &&& arity(t) == 4
            &&& names(t, 0, "SetVariable"@)
            &&& names(t, 1, req_id)
            &&& names(t, 2, name)
            &&& holds(t, 3, value_tree(value))
        },
{
    match c {
        PyCommandView::GetAttr { req_id, target, attr } => {
            lemma_form_items("GetAttr"@, seq![sym(req_id), value_tree(target), sym(attr)]);
        },
        PyCommandView::SetVariable { req_id, name, value } => {
            lemma_form_items("SetVariable"@, seq![sym(req_id), sym(name), value_tree(value)]);
        },
        _ => {},
    }
}

/// A call of a function is written as a list of its name and its fields, in their order.
pub proof fn a_call_is_written_field_by_field(
    req_id: Seq<char>,
    module: Seq<char>,
    function: Seq<char>,
    args: Seq<PyValueView>,
    kwargs: Seq<(Seq<char>, PyValueView)>,
)
    ensures
        ({
            let t = command_tree(PyCommandView::Call { req_id, module, function, args, kwargs });
            &&& arity(t) == 6
            &&& names(t, 0, "Call"@)
            &&& names(t, 1, req_id)
            &&& names(t, 2, module)
            &&& names(t, 3, function)
            &&& holds(t, 4, args_tree(args))
            &&& holds(t, 5, kwargs_tree(kwargs))
        }),
{
    let fields = seq![
        sym(req_id),
        sym(module),
        sym(function),
        args_tree(args),
        kwargs_tree(kwargs),
    ];
    lemma_five("Call"@, fields);
}

/// A call of a method is written as a list of its name and its fields, in their order.
pub proof fn a_method_call_is_written_field_by_field(
    req_id: Seq<char>,
    target: PyValueView,
    method: Seq<char>,
    args: Seq<PyValueView>,
    kwargs: Seq<(Seq<char>, PyValueView)>,
)
    ensures
        ({
            let t = command_tree(
                PyCommandView::CallMethod { req_id, target, method, args, kwargs },
            );
            &&& arity(t) == 6
            &&& names(t, 0, "CallMethod"@)
            &&& names(t, 1, req_id)
            &&& holds(t, 2, value_tree(target))
            &&& names(t, 3, method)
            &&& holds(t, 4, args_tree(args))
            &&& holds(t, 5, kwargs_tree(kwargs))
        }),
{
    let fields = seq![
        sym(req_id),
        value_tree(target),
        sym(method),
        args_tree(args),
        kwargs_tree(kwargs),
    ];
    lemma_five("CallMethod"@, fields);
}

proof fn lemma_five(head: Seq<char>, fields: Seq<ExprTree>)
    requires
        fields.len() == 5,
    ensures
        arity(form(head, fields)) == 6,
        names(form(head, fields), 0, head),
        holds(form(head, fields), 1, fields[0]),
        holds(form(head, fields), 2, fields[1]),
        holds(form(head, fields), 3, fields[2]),
        holds(form(head, fields), 4, fields[3]),
        holds(form(head, fields), 5, fields[4]),
{
}

/// A value is written as a list of its kind and its content; lists item by item and dictionaries
/// entry by entry, each key before its value.
pub proof fn a_value_is_written_with_its_kind(v: PyValueView, i: int)
    ensures
        v is NoneValue ==> value_tree(v) == ExprTree::Symbol(encode_utf8("None"@)),
        v matches PyValueView::Bool(b) ==> arity(value_tree(v)) == 2 && names(
            value_tree(v),
            0,
            "Bool"@,
        ) && names(value_tree(v), 1, if b { "true"@ } else { "false"@ }),
        v matches PyValueView::Int(n) ==> arity(value_tree(v)) == 2 && names(
            value_tree(v),
            0,
            "Int"@,
        ) && names(value_tree(v), 1, int_text(n)),
        v matches PyValueView::Float(t) ==> arity(value_tree(v)) == 2 && names(
            value_tree(v),
            0,
            "Float"@,
        ) && names(value_tree(v), 1, plain_form(t)),
        v matches PyValueView::Str(s) ==> arity(value_tree(v)) == 2 && names(
            value_tree(v),
            0,
            "Str"@,
        ) && names(value_tree(v), 1, s),
        v matches PyValueView::Handle(h) ==> arity(value_tree(v)) == 2 && names(
            value_tree(v),
            0,
            "Handle"@,
        ) && names(value_tree(v), 1, h),
        v matches PyValueView::List(vs) ==> arity(value_tree(v)) == vs.len() + 1 && names(
            value_tree(v),
            0,
            "List"@,
        ) && (0 <= i < vs.len() ==> holds(value_tree(v), i + 1, value_tree(vs[i]))),
        v matches PyValueView::Dict(es) ==> arity(value_tree(v)) == es.len() + 1 && names(
            value_tree(v),
            0,
            "Dict"@,
        ) && (0 <= i < es.len() ==> (value_tree(v) matches ExprTree::List(items) && arity(
            items[i + 1],
        ) == 3 && names(items[i + 1], 0, "Entry"@) && names(items[i + 1], 1, es[i].0) && holds(
            items[i + 1],
            2,
            value_tree(es[i].1),
        ))),
{
    match v {
        PyValueView::List(vs) => {
            assert(value_trees(vs).len() == vs.len());
            if 0 <= i < vs.len() {
                assert(value_trees(vs)[i] == value_tree(vs[i]));
            }
        },
        PyValueView::Dict(es) => {
            assert(entry_trees(es).len() == es.len());
            if 0 <= i < es.len() {
                let items = value_tree(v)->List_0;
                assert(items[i + 1] == entry_trees(es)[i]);
            }
        },
        _ => {},
    }
}

/// Arguments are written one for one and in order.
pub proof fn arguments_are_written_one_for_one(
    vs: Seq<PyValueView>,
    es: Seq<(Seq<char>, PyValueView)>,
    i: int,
)
    ensures
        arity(args_tree(vs)) == vs.len() + 1,
        arity(kwargs_tree(es)) == es.len() + 1,
        names(args_tree(vs), 0, "Args"@),
        names(kwargs_tree(es), 0, "Kwargs"@),
        0 <= i < vs.len() ==> holds(args_tree(vs), i + 1, value_tree(vs[i])),
        0 <= i < es.len() ==> (kwargs_tree(es) matches ExprTree::List(items) && arity(items[i + 1])
            == 3 && names(items[i + 1], 0, "Entry"@) && names(items[i + 1], 1, es[i].0) && holds(
            items[i + 1],
            2,
            value_tree(es[i].1),
        )),
{
    assert(value_trees(vs).len() == vs.len());
    assert(entry_trees(es).len() == es.len());
    if 0 <= i < vs.len() {
        assert(value_trees(vs)[i] == value_tree(vs[i]));
    }
    if 0 <= i < es.len() {
        let items = kwargs_tree(es)->List_0;
        assert(items[i + 1] == entry_trees(es)[i]);
    }
}

/// A result is written as success with its value, or as an error with its three texts in order.
pub proof fn a_result_is_written_with_its_status(r: PyResultView)
    ensures
        r matches PyResultView::Success(v) ==> arity(result_tree(r)) == 2 && names(
            result_tree(r),
            0,
            "Ok"@,
        ) && holds(result_tree(r), 1, value_tree(v)),
        r matches PyResultView::Error { error_type, message, traceback } ==> arity(result_tree(r))
            == 4 && names(result_tree(r), 0, "Error"@) && names(result_tree(r), 1, error_type)
            && names(result_tree(r), 2, message) && names(result_tree(r), 3, traceback),
{
}

/// Whether an item is a symbol whose text is given.
pub open spec fn tells(t: ExprTree, k: int, s: Seq<char>) -> bool {
    t matches ExprTree::List(items) && 0 <= k < items.len() && (items[k] matches ExprTree::Symbol(b)
        && valid_utf8(b) && decode_utf8(b) == s)
}

/// A command is read only out of a list that has its name and exactly its fields; every text field
/// is the text of the item that stands at its place.
#[verifier::rlimit(40)]
pub proof fn a_command_is_read_from_its_places(t: ExprTree)
    ensures
        command_of(t) matches Ok(c) ==> {
            &&& c matches PyCommandView::Import { req_id, module } ==> arity(t) == 3 && tells(
                t,
                0,
                "Import"@,
            ) && tells(t, 1, req_id) && tells(t, 2, module)
            &&& c matches PyCommandView::ImportFile { req_id, module, path } ==> arity(t) == 4
                && tells(t, 0, "ImportFile"@) && tells(t, 1, req_id) && tells(t, 2, module)
                && tells(t, 3, path)
            &&& c matches PyCommandView::GetAttr { req_id, target, attr } ==> arity(t) == 4
                && tells(t, 0, "GetAttr"@) && tells(t, 1, req_id) && value_of(t->List_0[2]) == Ok::<
                PyValueView,
                Seq<char>,
            >(target) && tells(t, 3, attr)
            &&& c matches PyCommandView::GetVariable { req_id, name } ==> arity(t) == 3 && tells(
                t,
                0,
                "GetVariable"@,
            ) && tells(t, 1, req_id) && tells(t, 2, name)
            &&& c matches PyCommandView::SetVariable { req_id, name, value } ==> arity(t) == 4
                && tells(t, 0, "SetVariable"@) && tells(t, 1, req_id) && tells(t, 2, name)
                && value_of(t->List_0[3]) == Ok::<PyValueView, Seq<char>>(value)
            &&& c matches PyCommandView::Call { req_id, module, function, .. } ==> arity(t) == 6
                && tells(t, 0, "Call"@) && tells(t, 1, req_id) && tells(t, 2, module) && tells(
                t,
                3,
                function,
            )
            &&& c matches PyCommandView::CallMethod { req_id, target, method, .. } ==> arity(t) == 6
                && tells(t, 0, "CallMethod"@) && tells(t, 1, req_id) && value_of(t->List_0[2])
                == Ok::<PyValueView, Seq<char>>(target) && tells(t, 3, method)
            &&& c matches PyCommandView::DropObject { req_id, handle } ==> arity(t) == 3 && tells(
                t,
                0,
                "DropObject"@,
            ) && tells(t, 1, req_id) && tells(t, 2, handle)
        },
{
}

/// A result is read only out of a list that has its status and exactly its fields.
pub proof fn a_result_is_read_from_its_places(t: ExprTree)
    ensures
        result_of(t) matches Ok(r) ==> {
            &&& r matches PyResultView::Success(v) ==> arity(t) == 2 && tells(t, 0, "Ok"@)
                && value_of(t->List_0[1]) == Ok::<PyValueView, Seq<char>>(v)
            &&& r matches PyResultView::Error { error_type, message, traceback } ==> arity(t) == 4
                && tells(t, 0, "Error"@) && tells(t, 1, error_type) && tells(t, 2, message)
                && tells(t, 3, traceback)
        },
{
}

proof fn lemma_values_read(items: Seq<ExprTree>, k: int)
    requires
        0 <= k <= items.len(),
    ensures
        values_from(items, k) matches Ok(vs) ==> vs.len() == items.len() - k && forall|i: int|
            0 <= i < vs.len() ==> value_of(#[trigger] items[k + i]) == Ok::<PyValueView, Seq<char>>(
                vs[i],
            ),
    decreases items.len() - k,
{
    if k < items.len() {
        lemma_values_read(items, k + 1);
        if let Ok(vs) = values_from(items, k) {
            let rest = values_from(items, k + 1)->Ok_0;
            assert forall|i: int| 0 <= i < vs.len() implies value_of(#[trigger] items[k + i])
                == Ok::<PyValueView, Seq<char>>(vs[i]) by {
                if i > 0 {
                    assert(vs[i] == rest[i - 1]);
                    assert(items[k + i] == items[(k + 1) + (i - 1)]);
                }
            }
        }
    }
}

proof fn lemma_entry_read(t: ExprTree, outside: Seq<char>, trailing: Seq<char>)
    ensures
        entry_of(t, outside, trailing) matches Ok((key, v)) ==> reads_entry(t, key, v),
{
}

proof fn lemma_entries_read(items: Seq<ExprTree>, k: int, outside: Seq<char>, trailing: Seq<char>)
    requires
        0 <= k <= items.len(),
    ensures
        entries_from(items, k, outside, trailing) matches Ok(es) ==> es.len() == items.len() - k
            && forall|i: int|
            0 <= i < es.len() ==> reads_entry(#[trigger] items[k + i], es[i].0, es[i].1),
    decreases items.len() - k,
{
    if k < items.len() {
        lemma_entries_read(items, k + 1, outside, trailing);
        if let Ok(es) = entries_from(items, k, outside, trailing) {
            let rest = entries_from(items, k + 1, outside, trailing)->Ok_0;
            assert forall|i: int| 0 <= i < es.len() implies reads_entry(
                #[trigger] items[k + i],
                es[i].0,
                es[i].1,
            ) by {
                if i > 0 {
                    assert(es[i] == rest[i - 1]);
                    assert(items[k + i] == items[(k + 1) + (i - 1)]);
                } else {
                    lemma_entry_read(items[k], outside, trailing);
                }
            }
        }
    }
}

/// Whether an expression is an entry of a key and of what a value is read from.
pub open spec fn reads_entry(t: ExprTree, key: Seq<char>, v: PyValueView) -> bool {
    arity(t) == 3 && tells(t, 0, "Entry"@) && tells(t, 1, key) && value_of(t->List_0[2]) == Ok::<
        PyValueView,
        Seq<char>,
    >(v)
}

/// A list is read item by item and a dictionary entry by entry: none is left out, and one that
/// cannot be read makes the whole unreadable.
pub proof fn containers_are_read_item_by_item(t: ExprTree, i: int)
    ensures
        value_of(t) matches Ok(PyValueView::List(vs)) ==> arity(t) == vs.len() + 1 && tells(
            t,
            0,
            "List"@,
        ) && (0 <= i < vs.len() ==> value_of(t->List_0[i + 1]) == Ok::<PyValueView, Seq<char>>(
            vs[i],
        )),
        value_of(t) matches Ok(PyValueView::Dict(es)) ==> arity(t) == es.len() + 1 && tells(
            t,
            0,
            "Dict"@,
        ) && (0 <= i < es.len() ==> reads_entry(t->List_0[i + 1], es[i].0, es[i].1)),
{
    if let ExprTree::List(items) = t {
        if items.len() > 0 {
            lemma_values_read(items, 1);
            lemma_entries_read(
                items,
                1,
                "expected Entry inside Dict, got "@,
                "Entry value has trailing data"@,
            );
            if 0 <= i < items.len() - 1 {
                assert(items[1 + i] == items[i + 1]);
            }
        }
    }
}

/// The arguments of a call are read one for one and in order.
pub proof fn arguments_are_read_one_for_one(t: ExprTree, i: int)
    ensures
        args_of(t) matches Ok(vs) ==> arity(t) == vs.len() + 1 && tells(t, 0, "Args"@) && (0 <= i
            < vs.len() ==> value_of(t->List_0[i + 1]) == Ok::<PyValueView, Seq<char>>(vs[i])),
        kwargs_of(t) matches Ok(es) ==> arity(t) == es.len() + 1 && tells(t, 0, "Kwargs"@) && (0
            <= i < es.len() ==> reads_entry(t->List_0[i + 1], es[i].0, es[i].1)),
{
    if let ExprTree::List(items) = t {
        if items.len() > 0 {
            lemma_values_read(items, 1);
            lemma_entries_read(
                items,
                1,
                "expected Entry inside Kwargs, got "@,
                "Kwargs Entry has trailing data"@,
            );
            if 0 <= i < items.len() - 1 {
                assert(items[1 + i] == items[i + 1]);
            }
        }
    }
}

/// A call's arguments come from its fifth and sixth items.
pub proof fn a_call_reads_its_arguments(t: ExprTree)
    ensures
        command_of(t) matches Ok(PyCommandView::Call { args, kwargs, .. }) ==> args_of(t->List_0[4])
            == Ok::<Seq<PyValueView>, Seq<char>>(args) && kwargs_of(t->List_0[5]) == Ok::<
            Seq<(Seq<char>, PyValueView)>,
            Seq<char>,
        >(kwargs),
        command_of(t) matches Ok(PyCommandView::CallMethod { args, kwargs, .. }) ==> args_of(
            t->List_0[4],
        ) == Ok::<Seq<PyValueView>, Seq<char>>(args) && kwargs_of(t->List_0[5]) == Ok::<
            Seq<(Seq<char>, PyValueView)>,
            Seq<char>,
        >(kwargs),
{
}

} // verus!
