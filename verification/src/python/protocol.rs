//! Python values, commands and results, and their form as expressions.
use vstd::prelude::*;
use vstd::utf8::encode_utf8;

use crate::expr::{
    all_fit, encode, encode_all, fits, item_byte, lemma_encode_all_push, tag_byte, ExprTree, Tag,
};
use crate::float_text::{plain_form, print_plain};
use crate::text::{i64_text, int_text};

verus! {

/// A Python value. A float is carried as a text that writes it: what is read is in the form in which
/// the float prints, and what is written has no needless sign, zeros or exponent.
#[derive(Debug, PartialEq)]
pub enum PyValue {
    NoneValue,
    Bool(bool),
    Int(i64),
    Float(String),
    Str(String),
    List(Vec<PyValue>),
    Dict(Vec<(String, PyValue)>),
    Handle(String),
}

/// A request to a Python session.
#[derive(Debug, PartialEq)]
pub enum PyCommand {
    Import { req_id: String, module: String },
    ImportFile { req_id: String, module: String, path: String },
    GetAttr { req_id: String, target: PyValue, attr: String },
    GetVariable { req_id: String, name: String },
    SetVariable { req_id: String, name: String, value: PyValue },
    Call {
        req_id: String,
        module: String,
        function: String,
        args: Vec<PyValue>,
        kwargs: Vec<(String, PyValue)>,
    },
    CallMethod {
        req_id: String,
        target: PyValue,
        method: String,
        args: Vec<PyValue>,
        kwargs: Vec<(String, PyValue)>,
    },
    DropObject { req_id: String, handle: String },
}

pub type PyQuery = PyCommand;

/// What a Python session answers.
#[derive(Debug, PartialEq)]
pub enum PyResult {
    Success(PyValue),
    Error { error_type: String, message: String, traceback: String },
}

/// The mathematical value of a `PyValue`.
pub ghost enum PyValueView {
    NoneValue,
    Bool(bool),
    Int(int),
    Float(Seq<char>),
    Str(Seq<char>),
    List(Seq<PyValueView>),
    Dict(Seq<(Seq<char>, PyValueView)>),
    Handle(Seq<char>),
}

/// The mathematical value of a `PyCommand`.
pub ghost enum PyCommandView {
    Import { req_id: Seq<char>, module: Seq<char> },
    ImportFile { req_id: Seq<char>, module: Seq<char>, path: Seq<char> },
    GetAttr { req_id: Seq<char>, target: PyValueView, attr: Seq<char> },
    GetVariable { req_id: Seq<char>, name: Seq<char> },
    SetVariable { req_id: Seq<char>, name: Seq<char>, value: PyValueView },
    Call {
        req_id: Seq<char>,
        module: Seq<char>,
        function: Seq<char>,
        args: Seq<PyValueView>,
        kwargs: Seq<(Seq<char>, PyValueView)>,
    },
    CallMethod {
        req_id: Seq<char>,
        target: PyValueView,
        method: Seq<char>,
        args: Seq<PyValueView>,
        kwargs: Seq<(Seq<char>, PyValueView)>,
    },
    DropObject { req_id: Seq<char>, handle: Seq<char> },
}

/// The mathematical value of a `PyResult`.
pub ghost enum PyResultView {
    Success(PyValueView),
    Error { error_type: Seq<char>, message: Seq<char>, traceback: Seq<char> },
}

impl PyValue {
    pub open spec fn view(&self) -> PyValueView
        decreases self,
    {
        match self {
            PyValue::NoneValue => PyValueView::NoneValue,
            PyValue::Bool(b) => PyValueView::Bool(*b),
            PyValue::Int(v) => PyValueView::Int(*v as int),
            PyValue::Float(t) => PyValueView::Float(t@),
            PyValue::Str(s) => PyValueView::Str(s@),
            PyValue::List(vs) => PyValueView::List(values_view(vs@)),
            PyValue::Dict(es) => PyValueView::Dict(entries_view(es@)),
            PyValue::Handle(h) => PyValueView::Handle(h@),
        }
    }
}

pub open spec fn values_view(vs: Seq<PyValue>) -> Seq<PyValueView>
    decreases vs,
{
    Seq::new(
        vs.len(),
        |i: int|
            if 0 <= i < vs.len() {
                vs[i].view()
            } else {
                PyValueView::NoneValue
            },
    )
}

pub open spec fn entries_view(es: Seq<(String, PyValue)>) -> Seq<(Seq<char>, PyValueView)>
    decreases es,
{
    Seq::new(
        es.len(),
        |i: int|
            if 0 <= i < es.len() {
                (es[i].0@, es[i].1.view())
            } else {
                (seq![], PyValueView::NoneValue)
            },
    )
}

impl PyCommand {
    pub open spec fn view(&self) -> PyCommandView {
        match self {
            PyCommand::Import { req_id, module } => PyCommandView::Import {
                req_id: req_id@,
                module: module@,
            },
            PyCommand::ImportFile { req_id, module, path } => PyCommandView::ImportFile {
                req_id: req_id@,
                module: module@,
                path: path@,
            },
            PyCommand::GetAttr { req_id, target, attr } => PyCommandView::GetAttr {
                req_id: req_id@,
                target: target@,
                attr: attr@,
            },
            PyCommand::GetVariable { req_id, name } => PyCommandView::GetVariable {
                req_id: req_id@,
                name: name@,
            },
            PyCommand::SetVariable { req_id, name, value } => PyCommandView::SetVariable {
                req_id: req_id@,
                name: name@,
                value: value@,
            },
            PyCommand::Call { req_id, module, function, args, kwargs } => PyCommandView::Call {
                req_id: req_id@,
                module: module@,
                function: function@,
                args: values_view(args@),
                kwargs: entries_view(kwargs@),
            },
            PyCommand::CallMethod { req_id, target, method, args, kwargs } => {
                PyCommandView::CallMethod {
                    req_id: req_id@,
                    target: target@,
                    method: method@,
                    args: values_view(args@),
                    kwargs: entries_view(kwargs@),
                }
            },
            PyCommand::DropObject { req_id, handle } => PyCommandView::DropObject {
                req_id: req_id@,
                handle: handle@,
            },
        }
    }
}

impl PyResult {
    pub open spec fn view(&self) -> PyResultView {
        match self {
            PyResult::Success(v) => PyResultView::Success(v@),
            PyResult::Error { error_type, message, traceback } => PyResultView::Error {
                error_type: error_type@,
                message: message@,
                traceback: traceback@,
            },
        }
    }
}

/// A copy of a value.
fn copy_value(v: &PyValue) -> (r: PyValue)
    ensures
        r@ == v@,
    decreases v,
{
    match v {
        PyValue::NoneValue => PyValue::NoneValue,
        PyValue::Bool(b) => PyValue::Bool(*b),
        PyValue::Int(i) => PyValue::Int(*i),
        PyValue::Float(t) => PyValue::Float(t.clone()),
        PyValue::Str(s) => PyValue::Str(s.clone()),
        PyValue::List(vs) => PyValue::List(copy_values(vs)),
        PyValue::Dict(es) => PyValue::Dict(copy_entries(es)),
        PyValue::Handle(h) => PyValue::Handle(h.clone()),
    }
}

fn copy_values(vs: &Vec<PyValue>) -> (r: Vec<PyValue>)
    ensures
        values_view(r@) == values_view(vs@),
    decreases vs,
{
    let mut out: Vec<PyValue> = Vec::new();
    let mut i: usize = 0;
    while i < vs.len()
        invariant
            0 <= i <= vs@.len(),
            values_view(out@) == values_view(vs@).take(i as int),
        decreases vs@.len() - i,
    {
        let ghost before = out@;
        out.push(copy_value(&vs[i]));
        i = i + 1;
        assert(values_view(out@) =~= values_view(before).push(vs@[i - 1]@));
        assert(values_view(out@) =~= values_view(vs@).take(i as int));
    }
    assert(values_view(vs@).take(i as int) =~= values_view(vs@));
    out
}

fn copy_entries(es: &Vec<(String, PyValue)>) -> (r: Vec<(String, PyValue)>)
    ensures
        entries_view(r@) == entries_view(es@),
    decreases es,
{
    let mut out: Vec<(String, PyValue)> = Vec::new();
    let mut i: usize = 0;
    while i < es.len()
        invariant
            0 <= i <= es@.len(),
            entries_view(out@) == entries_view(es@).take(i as int),
        decreases es@.len() - i,
    {
        let ghost before = out@;
        out.push((es[i].0.clone(), copy_value(&es[i].1)));
        i = i + 1;
        assert(entries_view(out@) =~= entries_view(before).push((es@[i - 1].0@, es@[i - 1].1@)));
        assert(entries_view(out@) =~= entries_view(es@).take(i as int));
    }
    assert(entries_view(es@).take(i as int) =~= entries_view(es@));
    out
}

impl Clone for PyValue {
    fn clone(&self) -> (r: Self)
        ensures
            r@ == self@,
    {
        copy_value(self)
    }
}

impl Clone for PyResult {
    fn clone(&self) -> (r: Self)
        ensures
            r@ == self@,
    {
        match self {
            PyResult::Success(v) => PyResult::Success(v.clone()),
            PyResult::Error { error_type, message, traceback } => PyResult::Error {
                error_type: error_type.clone(),
                message: message.clone(),
                traceback: traceback.clone(),
            },
        }
    }
}

/// The symbol that a text makes.
pub open spec fn sym(s: Seq<char>) -> ExprTree {
    ExprTree::Symbol(encode_utf8(s))
}

/// A list that starts with a head symbol.
pub open spec fn form(head: Seq<char>, fields: Seq<ExprTree>) -> ExprTree {
    ExprTree::List(seq![sym(head)] + fields)
}

/// The expression of a value.
pub open spec fn value_tree(v: PyValueView) -> ExprTree
    decreases v, 0int,
{
    match v {
        PyValueView::NoneValue => sym("None"@),
        PyValueView::Bool(b) => form("Bool"@, seq![sym(if b { "true"@ } else { "false"@ })]),
        PyValueView::Int(i) => form("Int"@, seq![sym(int_text(i))]),
        PyValueView::Float(t) => form("Float"@, seq![sym(plain_form(t))]),
        PyValueView::Str(s) => form("Str"@, seq![sym(s)]),
        PyValueView::List(vs) => form("List"@, value_trees(vs)),
        PyValueView::Dict(es) => form("Dict"@, entry_trees(es)),
        PyValueView::Handle(h) => form("Handle"@, seq![sym(h)]),
    }
}

pub open spec fn value_trees(vs: Seq<PyValueView>) -> Seq<ExprTree>
    decreases vs, 0int,
{
    Seq::new(
        vs.len(),
        |i: int|
            if 0 <= i < vs.len() {
                value_tree(vs[i])
            } else {
                ExprTree::NewVar
            },
    )
}

pub open spec fn entry_tree(key: Seq<char>, v: PyValueView) -> ExprTree
    decreases v, 1int,
{
    form("Entry"@, seq![sym(key), value_tree(v)])
}

pub open spec fn entry_trees(es: Seq<(Seq<char>, PyValueView)>) -> Seq<ExprTree>
    decreases es, 0int,
{
    Seq::new(
        es.len(),
        |i: int|
            if 0 <= i < es.len() {
                entry_tree(es[i].0, es[i].1)
            } else {
                ExprTree::NewVar
            },
    )
}

pub open spec fn args_tree(vs: Seq<PyValueView>) -> ExprTree {
    form("Args"@, value_trees(vs))
}

pub open spec fn kwargs_tree(es: Seq<(Seq<char>, PyValueView)>) -> ExprTree {
    form("Kwargs"@, entry_trees(es))
}

/// The expression of a command.
pub open spec fn command_tree(c: PyCommandView) -> ExprTree {
    match c {
        PyCommandView::Import { req_id, module } => form("Import"@, seq![sym(req_id), sym(module)]),
        PyCommandView::ImportFile { req_id, module, path } => form(
            "ImportFile"@,
            seq![sym(req_id), sym(module), sym(path)],
        ),
        PyCommandView::GetAttr { req_id, target, attr } => form(
            "GetAttr"@,
            seq![sym(req_id), value_tree(target), sym(attr)],
        ),
        PyCommandView::GetVariable { req_id, name } => form(
            "GetVariable"@,
            seq![sym(req_id), sym(name)],
        ),
        PyCommandView::SetVariable { req_id, name, value } => form(
            "SetVariable"@,
            seq![sym(req_id), sym(name), value_tree(value)],
        ),
        PyCommandView::Call { req_id, module, function, args, kwargs } => form(
            "Call"@,
            seq![sym(req_id), sym(module), sym(function), args_tree(args), kwargs_tree(kwargs)],
        ),
        PyCommandView::CallMethod { req_id, target, method, args, kwargs } => form(
            "CallMethod"@,
            seq![
                sym(req_id),
                value_tree(target),
                sym(method),
                args_tree(args),
                kwargs_tree(kwargs),
            ],
        ),
        PyCommandView::DropObject { req_id, handle } => form(
            "DropObject"@,
            seq![sym(req_id), sym(handle)],
        ),
    }
}

/// The expression of a result.
pub open spec fn result_tree(r: PyResultView) -> ExprTree {
    match r {
        PyResultView::Success(v) => form("Ok"@, seq![value_tree(v)]),
        PyResultView::Error { error_type, message, traceback } => form(
            "Error"@,
            seq![sym(error_type), sym(message), sym(traceback)],
        ),
    }
}

/// Appends a symbol.
fn write_symbol(out: &mut Vec<u8>, symbol: &str)
    requires
        fits(sym(symbol@)),
    ensures
        final(out)@ == old(out)@ + encode(sym(symbol@)),
{
    let bytes = symbol.as_bytes();
    let n: u8 = bytes.len() as u8;
    out.push(item_byte(Tag::SymbolSize(n)));
    out.extend_from_slice(bytes);
    assert(out@ =~= old(out)@ + encode(sym(symbol@)));
}

/// The bytes that open a form of some number of fields.
pub open spec fn form_start(head: Seq<char>, fields: int) -> Seq<u8> {
    seq![tag_byte(Tag::Arity((fields + 1) as u8))] + encode(sym(head))
}

/// Appends the tag and the head of a form.
fn write_form_start(out: &mut Vec<u8>, head: &str, fields: usize)
    requires
        fields < 63,
        fits(sym(head@)),
    ensures
        final(out)@ == old(out)@ + form_start(head@, fields as int),
{
    out.push(item_byte(Tag::Arity((fields + 1) as u8)));
    write_symbol(out, head);
    assert(out@ =~= old(out)@ + form_start(head@, fields as int));
}

/// A form's encoding is its start followed by its fields.
proof fn lemma_form(head: Seq<char>, fields: Seq<ExprTree>)
    ensures
        encode(form(head, fields)) == form_start(head, fields.len() as int) + encode_all(fields),
        fits(form(head, fields)) ==> fields.len() < 63 && fits(sym(head)) && all_fit(fields),
{
    let items = seq![sym(head)] + fields;
    assert(items.drop_first() =~= fields);
    assert(encode(form(head, fields)) =~= form_start(head, fields.len() as int) + encode_all(
        fields,
    ));
    if fits(form(head, fields)) {
        assert(items[0] == sym(head));
        assert forall|i: int| 0 <= i < fields.len() implies fits(#[trigger] fields[i]) by {
            assert(items[i + 1] == fields[i]);
        }
    }
}

proof fn lemma_encode_fields(fields: Seq<ExprTree>)
    ensures
        fields.len() == 1 ==> encode_all(fields) == encode(fields[0]),
        fields.len() == 2 ==> encode_all(fields) == encode(fields[0]) + encode(fields[1]),
        fields.len() == 3 ==> encode_all(fields) == encode(fields[0]) + encode(fields[1]) + encode(
            fields[2],
        ),
        fields.len() == 5 ==> encode_all(fields) == encode(fields[0]) + encode(fields[1]) + encode(
            fields[2],
        ) + encode(fields[3]) + encode(fields[4]),
{
    let empty = Seq::<ExprTree>::empty();
    assert(encode_all(empty) =~= seq![]);
    if fields.len() >= 1 {
        let p1 = empty.push(fields[0]);
        lemma_encode_all_push(empty, fields[0]);
        assert(encode_all(p1) =~= encode(fields[0]));
        if fields.len() == 1 {
            assert(p1 =~= fields);
        } else {
            let p2 = p1.push(fields[1]);
            lemma_encode_all_push(p1, fields[1]);
            if fields.len() == 2 {
                assert(p2 =~= fields);
            } else {
                let p3 = p2.push(fields[2]);
                lemma_encode_all_push(p2, fields[2]);
                if fields.len() == 3 {
                    assert(p3 =~= fields);
                } else if fields.len() == 5 {
                    let p4 = p3.push(fields[3]);
                    lemma_encode_all_push(p3, fields[3]);
                    lemma_encode_all_push(p4, fields[4]);
                    assert(p4.push(fields[4]) =~= fields);
                }
            }
        }
    }
}

proof fn lemma_form1(head: Seq<char>, a: ExprTree)
    ensures
        encode(form(head, seq![a])) == form_start(head, 1) + encode(a),
        fits(form(head, seq![a])) ==> fits(sym(head)) && fits(a),
{
    let fields = seq![a];
    lemma_form(head, fields);
    lemma_encode_fields(fields);
    assert(fields[0] == a);
}

proof fn lemma_form2(head: Seq<char>, a: ExprTree, b: ExprTree)
    ensures
        encode(form(head, seq![a, b])) == form_start(head, 2) + encode(a) + encode(b),
        fits(form(head, seq![a, b])) ==> fits(sym(head)) && fits(a) && fits(b),
{
    let fields = seq![a, b];
    lemma_form(head, fields);
    lemma_encode_fields(fields);
    assert(fields[0] == a && fields[1] == b);
    assert(encode(form(head, fields)) =~= form_start(head, 2) + encode(a) + encode(b));
}

proof fn lemma_form3(head: Seq<char>, a: ExprTree, b: ExprTree, c: ExprTree)
    ensures
        encode(form(head, seq![a, b, c])) == form_start(head, 3) + encode(a) + encode(b) + encode(
            c,
        ),
        fits(form(head, seq![a, b, c])) ==> fits(sym(head)) && fits(a) && fits(b) && fits(c),
{
    let fields = seq![a, b, c];
    lemma_form(head, fields);
    lemma_encode_fields(fields);
    assert(fields[0] == a && fields[1] == b && fields[2] == c);
    assert(encode(form(head, fields)) =~= form_start(head, 3) + encode(a) + encode(b) + encode(c));
}

proof fn lemma_form5(
    head: Seq<char>,
    a: ExprTree,
    b: ExprTree,
    c: ExprTree,
    d: ExprTree,
    e: ExprTree,
)
    ensures
        encode(form(head, seq![a, b, c, d, e])) == form_start(head, 5) + encode(a) + encode(b)
            + encode(c) + encode(d) + encode(e),
        fits(form(head, seq![a, b, c, d, e])) ==> fits(sym(head)) && fits(a) && fits(b) && fits(c)
            && fits(d) && fits(e),
{
    let fields = seq![a, b, c, d, e];
    lemma_form(head, fields);
    lemma_encode_fields(fields);
    assert(fields[0] == a && fields[1] == b && fields[2] == c && fields[3] == d && fields[4] == e);
    assert(encode(form(head, fields)) =~= form_start(head, 5) + encode(a) + encode(b) + encode(c)
        + encode(d) + encode(e));
}

/// A form of one field.
fn write_form1(out: &mut Vec<u8>, head: &str, a: &str)
    requires
        fits(form(head@, seq![sym(a@)])),
    ensures
        final(out)@ == old(out)@ + encode(form(head@, seq![sym(a@)])),
{
    proof {
        lemma_form1(head@, sym(a@));
    }
    write_form_start(out, head, 1);
    write_symbol(out, a);
    assert(out@ =~= old(out)@ + encode(form(head@, seq![sym(a@)])));
}

/// Appends the expression of a value.
fn write_py_value(out: &mut Vec<u8>, value: &PyValue)
    requires
        fits(value_tree(value@)),
    ensures
        final(out)@ == old(out)@ + encode(value_tree(value@)),
    decreases value, 0int,
{
    match value {
        PyValue::NoneValue => write_symbol(out, "None"),
        PyValue::Bool(flag) => {
            if *flag {
                write_form1(out, "Bool", "true")
            } else {
                write_form1(out, "Bool", "false")
            }
        },
        PyValue::Int(v) => write_form1(out, "Int", i64_text(*v).as_str()),
        PyValue::Float(t) => write_form1(out, "Float", print_plain(t.as_str()).as_str()),
        PyValue::Str(s) => write_form1(out, "Str", s.as_str()),
        PyValue::List(values) => {
            proof {
                lemma_form("List"@, value_trees(values_view(values@)));
            }
            write_form_start(out, "List", values.len());
            write_values(out, values);
            assert(out@ =~= old(out)@ + encode(value_tree(value@)));
        },
        PyValue::Dict(entries) => {
            proof {
                lemma_form("Dict"@, entry_trees(entries_view(entries@)));
            }
            write_form_start(out, "Dict", entries.len());
            write_entries(out, entries);
            assert(out@ =~= old(out)@ + encode(value_tree(value@)));
        },
        PyValue::Handle(h) => write_form1(out, "Handle", h.as_str()),
    }
}

/// Appends the expressions of values, one behind the other.
fn write_values(out: &mut Vec<u8>, values: &Vec<PyValue>)
    requires
        all_fit(value_trees(values_view(values@))),
    ensures
        final(out)@ == old(out)@ + encode_all(value_trees(values_view(values@))),
    decreases values, 0int,
{
    let ghost ts = value_trees(values_view(values@));
    let mut i: usize = 0;
    assert(encode_all(ts.take(0)) =~= seq![]);
    assert(out@ =~= old(out)@ + encode_all(ts.take(0)));
    while i < values.len()
        invariant
            0 <= i <= values@.len(),
            ts == value_trees(values_view(values@)),
            all_fit(ts),
            out@ == old(out)@ + encode_all(ts.take(i as int)),
        decreases values@.len() - i,
    {
        proof {
            assert(ts[i as int] == value_tree(values@[i as int]@));
            crate::expr::lemma_encode_all_take(ts, i as int);
        }
        write_py_value(out, &values[i]);
        i = i + 1;
        assert(out@ =~= old(out)@ + encode_all(ts.take(i as int)));
    }
    assert(ts.take(i as int) =~= ts);
}

/// Appends the expression of a named value.
fn write_entry(out: &mut Vec<u8>, key: &str, value: &PyValue)
    requires
        fits(entry_tree(key@, value@)),
    ensures
        final(out)@ == old(out)@ + encode(entry_tree(key@, value@)),
    decreases value, 1int,
{
    proof {
        lemma_form2("Entry"@, sym(key@), value_tree(value@));
    }
    write_form_start(out, "Entry", 2);
    write_symbol(out, key);
    write_py_value(out, value);
    assert(out@ =~= old(out)@ + encode(entry_tree(key@, value@)));
}

/// Appends the expressions of named values, one behind the other.
fn write_entries(out: &mut Vec<u8>, entries: &Vec<(String, PyValue)>)
    requires
        all_fit(entry_trees(entries_view(entries@))),
    ensures
        final(out)@ == old(out)@ + encode_all(entry_trees(entries_view(entries@))),
    decreases entries, 0int,
{
    let ghost ts = entry_trees(entries_view(entries@));
    let mut i: usize = 0;
    assert(encode_all(ts.take(0)) =~= seq![]);
    assert(out@ =~= old(out)@ + encode_all(ts.take(0)));
    while i < entries.len()
        invariant
            0 <= i <= entries@.len(),
            ts == entry_trees(entries_view(entries@)),
            all_fit(ts),
            out@ == old(out)@ + encode_all(ts.take(i as int)),
        decreases entries@.len() - i,
    {
        proof {
            assert(ts[i as int] == entry_tree(entries@[i as int].0@, entries@[i as int].1@));
            crate::expr::lemma_encode_all_take(ts, i as int);
        }
        write_entry(out, entries[i].0.as_str(), &entries[i].1);
        i = i + 1;
        assert(out@ =~= old(out)@ + encode_all(ts.take(i as int)));
    }
    assert(ts.take(i as int) =~= ts);
}

/// Appends the form of positional arguments.
fn write_py_args(out: &mut Vec<u8>, args: &Vec<PyValue>)
    requires
        fits(args_tree(values_view(args@))),
    ensures
        final(out)@ == old(out)@ + encode(args_tree(values_view(args@))),
{
    proof {
        lemma_form("Args"@, value_trees(values_view(args@)));
    }
    write_form_start(out, "Args", args.len());
    write_values(out, args);
    assert(out@ =~= old(out)@ + encode(args_tree(values_view(args@))));
}

/// Appends the form of named arguments.
fn write_py_kwargs(out: &mut Vec<u8>, kwargs: &Vec<(String, PyValue)>)
    requires
        fits(kwargs_tree(entries_view(kwargs@))),
    ensures
        final(out)@ == old(out)@ + encode(kwargs_tree(entries_view(kwargs@))),
{
    proof {
        lemma_form("Kwargs"@, entry_trees(entries_view(kwargs@)));
    }
    write_form_start(out, "Kwargs", kwargs.len());
    write_entries(out, kwargs);
    assert(out@ =~= old(out)@ + encode(kwargs_tree(entries_view(kwargs@))));
}

/// Appends a form of two symbols.
fn write_form2(out: &mut Vec<u8>, head: &str, a: &str, b: &str)
    requires
        fits(form(head@, seq![sym(a@), sym(b@)])),
    ensures
        final(out)@ == old(out)@ + encode(form(head@, seq![sym(a@), sym(b@)])),
{
    proof {
        lemma_form2(head@, sym(a@), sym(b@));
    }
    write_form_start(out, head, 2);
    write_symbol(out, a);
    write_symbol(out, b);
    assert(out@ =~= old(out)@ + encode(form(head@, seq![sym(a@), sym(b@)])));
}

/// Appends a form of three symbols.
fn write_form3(out: &mut Vec<u8>, head: &str, a: &str, b: &str, c: &str)
    requires
        fits(form(head@, seq![sym(a@), sym(b@), sym(c@)])),
    ensures
        final(out)@ == old(out)@ + encode(form(head@, seq![sym(a@), sym(b@), sym(c@)])),
{
    proof {
        lemma_form3(head@, sym(a@), sym(b@), sym(c@));
    }
    write_form_start(out, head, 3);
    write_symbol(out, a);
    write_symbol(out, b);
    write_symbol(out, c);
    assert(out@ =~= old(out)@ + encode(form(head@, seq![sym(a@), sym(b@), sym(c@)])));
}

fn write_get_attr(out: &mut Vec<u8>, req_id: &str, target: &PyValue, attr: &str)
    requires
        fits(form("GetAttr"@, seq![sym(req_id@), value_tree(target@), sym(attr@)])),
    ensures
        final(out)@ == old(out)@ + encode(
            form("GetAttr"@, seq![sym(req_id@), value_tree(target@), sym(attr@)]),
        ),
{
    let ghost t = form("GetAttr"@, seq![sym(req_id@), value_tree(target@), sym(attr@)]);
    proof {
        lemma_form3("GetAttr"@, sym(req_id@), value_tree(target@), sym(attr@));
    }
    write_form_start(out, "GetAttr", 3);
    write_symbol(out, req_id);
    write_py_value(out, target);
    write_symbol(out, attr);
    assert(out@ =~= old(out)@ + encode(t));
}

fn write_set_variable(out: &mut Vec<u8>, req_id: &str, name: &str, value: &PyValue)
    requires
        fits(form("SetVariable"@, seq![sym(req_id@), sym(name@), value_tree(value@)])),
    ensures
        final(out)@ == old(out)@ + encode(
            form("SetVariable"@, seq![sym(req_id@), sym(name@), value_tree(value@)]),
        ),
{
    let ghost t = form("SetVariable"@, seq![sym(req_id@), sym(name@), value_tree(value@)]);
    proof {
        lemma_form3("SetVariable"@, sym(req_id@), sym(name@), value_tree(value@));
    }
    write_form_start(out, "SetVariable", 3);
    write_symbol(out, req_id);
    write_symbol(out, name);
    write_py_value(out, value);
    assert(out@ =~= old(out)@ + encode(t));
}

fn write_call_tail(out: &mut Vec<u8>, args: &Vec<PyValue>, kwargs: &Vec<(String, PyValue)>)
    requires
        fits(args_tree(values_view(args@))),
        fits(kwargs_tree(entries_view(kwargs@))),
    ensures
        final(out)@ == old(out)@ + encode(args_tree(values_view(args@))) + encode(
            kwargs_tree(entries_view(kwargs@)),
        ),
{
    write_py_args(out, args);
    write_py_kwargs(out, kwargs);
}

fn write_call(
    out: &mut Vec<u8>,
    req_id: &str,
    module: &str,
    function: &str,
    args: &Vec<PyValue>,
    kwargs: &Vec<(String, PyValue)>,
)
    requires
        fits(
            form(
                "Call"@,
                seq![
                    sym(req_id@),
                    sym(module@),
                    sym(function@),
                    args_tree(values_view(args@)),
                    kwargs_tree(entries_view(kwargs@)),
                ],
            ),
        ),
    ensures
        final(out)@ == old(out)@ + encode(
            form(
                "Call"@,
                seq![
                    sym(req_id@),
                    sym(module@),
                    sym(function@),
                    args_tree(values_view(args@)),
                    kwargs_tree(entries_view(kwargs@)),
                ],
            ),
        ),
{
    let ghost a = args_tree(values_view(args@));
    let ghost k = kwargs_tree(entries_view(kwargs@));
    let ghost t = form("Call"@, seq![sym(req_id@), sym(module@), sym(function@), a, k]);
    proof {
        lemma_form5("Call"@, sym(req_id@), sym(module@), sym(function@), a, k);
    }
    write_form_start(out, "Call", 5);
    write_symbol(out, req_id);
    write_symbol(out, module);
    write_symbol(out, function);
    write_call_tail(out, args, kwargs);
    assert(out@ =~= old(out)@ + encode(t));
}

fn write_call_method(
    out: &mut Vec<u8>,
    req_id: &str,
    target: &PyValue,
    method: &str,
    args: &Vec<PyValue>,
    kwargs: &Vec<(String, PyValue)>,
)
    requires
        fits(
            form(
                "CallMethod"@,
                seq![
                    sym(req_id@),
                    value_tree(target@),
                    sym(method@),
                    args_tree(values_view(args@)),
                    kwargs_tree(entries_view(kwargs@)),
                ],
            ),
        ),
    ensures
        final(out)@ == old(out)@ + encode(
            form(
                "CallMethod"@,
                seq![
                    sym(req_id@),
                    value_tree(target@),
                    sym(method@),
                    args_tree(values_view(args@)),
                    kwargs_tree(entries_view(kwargs@)),
                ],
            ),
        ),
{
    let ghost a = args_tree(values_view(args@));
    let ghost k = kwargs_tree(entries_view(kwargs@));
    let ghost t = form("CallMethod"@, seq![sym(req_id@), value_tree(target@), sym(method@), a, k]);
    proof {
        lemma_form5("CallMethod"@, sym(req_id@), value_tree(target@), sym(method@), a, k);
    }
    write_form_start(out, "CallMethod", 5);
    write_symbol(out, req_id);
    write_py_value(out, target);
    write_symbol(out, method);
    write_call_tail(out, args, kwargs);
    assert(out@ =~= old(out)@ + encode(t));
}

/// Appends the expression of a command.
fn write_py_command(out: &mut Vec<u8>, command: &PyCommand)
    requires
        fits(command_tree(command@)),
    ensures
        final(out)@ == old(out)@ + encode(command_tree(command@)),
{
    match command {
        PyCommand::Import { req_id, module } => {
            write_form2(out, "Import", req_id.as_str(), module.as_str())
        },
        PyCommand::ImportFile { req_id, module, path } => {
            write_form3(out, "ImportFile", req_id.as_str(), module.as_str(), path.as_str())
        },
        PyCommand::GetAttr { req_id, target, attr } => {
            write_get_attr(out, req_id.as_str(), target, attr.as_str())
        },
        PyCommand::GetVariable { req_id, name } => {
            write_form2(out, "GetVariable", req_id.as_str(), name.as_str())
        },
        PyCommand::SetVariable { req_id, name, value } => {
            write_set_variable(out, req_id.as_str(), name.as_str(), value)
        },
        PyCommand::Call { req_id, module, function, args, kwargs } => {
            write_call(out, req_id.as_str(), module.as_str(), function.as_str(), args, kwargs)
        },
        PyCommand::CallMethod { req_id, target, method, args, kwargs } => {
            write_call_method(out, req_id.as_str(), target, method.as_str(), args, kwargs)
        },
        PyCommand::DropObject { req_id, handle } => {
            write_form2(out, "DropObject", req_id.as_str(), handle.as_str())
        },
    }
}

/// Appends the expression of a result.
fn write_py_result(out: &mut Vec<u8>, result: &PyResult)
    requires
        fits(result_tree(result@)),
    ensures
        final(out)@ == old(out)@ + encode(result_tree(result@)),
{
    let ghost start = out@;
    match result {
        PyResult::Success(value) => {
            proof {
                lemma_form1("Ok"@, value_tree(value@));
            }
            write_form_start(out, "Ok", 1);
            write_py_value(out, value);
            assert(out@ =~= start + encode(result_tree(result@)));
        },
        PyResult::Error { error_type, message, traceback } => {
            proof {
                lemma_form3("Error"@, sym(error_type@), sym(message@), sym(traceback@));
            }
            write_form_start(out, "Error", 3);
            write_symbol(out, error_type.as_str());
            write_symbol(out, message.as_str());
            write_symbol(out, traceback.as_str());
            assert(out@ =~= start + encode(result_tree(result@)));
        },
    }
}

/// `std::io::Error`, which writers may return.
#[verifier::external_type_specification]
#[verifier::external_body]
pub struct ExIoError(std::io::Error);

/// The encoded expression of a value. Writing to memory does not fail.
pub fn py_value_to_expr_bytes(value: &PyValue) -> (r: Result<Vec<u8>, std::io::Error>)
    requires
        fits(value_tree(value@)),
    ensures
        r matches Ok(bytes) && bytes@ == encode(value_tree(value@)),
{
    let mut out: Vec<u8> = Vec::new();
    write_py_value(&mut out, value);
    assert(out@ =~= encode(value_tree(value@)));
    Ok(out)
}

/// The encoded expression of a command. Writing to memory does not fail.
pub fn py_command_to_expr_bytes(command: &PyCommand) -> (r: Result<Vec<u8>, std::io::Error>)
    requires
        fits(command_tree(command@)),
    ensures
        r matches Ok(bytes) && bytes@ == encode(command_tree(command@)),
{
    let mut out: Vec<u8> = Vec::new();
    write_py_command(&mut out, command);
    assert(out@ =~= encode(command_tree(command@)));
    Ok(out)
}

/// The encoded expression of a query; queries are commands.
pub fn py_query_to_expr_bytes(query: &PyQuery) -> (r: Result<Vec<u8>, std::io::Error>)
    requires
        fits(command_tree(query@)),
    ensures
        r matches Ok(bytes) && bytes@ == encode(command_tree(query@)),
{
    py_command_to_expr_bytes(query)
}

/// The encoded expression of a result. Writing to memory does not fail.
pub fn py_result_to_expr_bytes(result: &PyResult) -> (r: Result<Vec<u8>, std::io::Error>)
    requires
        fits(result_tree(result@)),
    ensures
        r matches Ok(bytes) && bytes@ == encode(result_tree(result@)),
{
    let mut out: Vec<u8> = Vec::new();
    write_py_result(&mut out, result);
    assert(out@ =~= encode(result_tree(result@)));
    Ok(out)
}

} // verus!
