//! Reading Python values, commands and results out of expressions.
use vstd::prelude::*;
use vstd::utf8::{decode_utf8, encode_utf8, valid_utf8};

use crate::expr::{
    child_offset, encode, exprs_view, lemma_encode_all_take, offset_of, tag_name,
    tag_text, Expr, ExprTree,
};
use crate::float_text::{float_form, print_float};
use crate::python::protocol::{
    entries_view, values_view, PyCommand, PyCommandView, PyQuery, PyResult, PyResultView, PyValue,
    PyValueView,
};
use crate::text::{
    check_float, concat, dec_text, i64_from_text, i64_of, is_float, quoted, quoted_text,
    str_eq, string_from_utf8, u64_text, utf8_error_text,
};

verus! {

/// Whether the encoding of an expression fits in memory.
pub open spec fn addressable(t: ExprTree) -> bool {
    encode(t).len() <= usize::MAX
}

/// The text of a symbol, or what is wrong with its bytes.
pub open spec fn symbol_text(b: Seq<u8>) -> Result<Seq<char>, Seq<char>> {
    if valid_utf8(b) {
        Ok(decode_utf8(b))
    } else {
        Err(utf8_error_text(b))
    }
}

pub open spec fn symbol_expected(off: nat, got: Seq<char>) -> Seq<char> {
    "expected symbol at offset "@ + dec_text(off) + ", got "@ + got
}

/// The symbol that is item `k` of a list.
pub open spec fn symbol_at(items: Seq<ExprTree>, k: int) -> Result<Seq<char>, Seq<char>> {
    if k >= items.len() {
        Err(symbol_expected(offset_of(items, items.len() as int), "end of expression"@))
    } else {
        match items[k] {
            ExprTree::Symbol(b) => symbol_text(b),
            other => Err(symbol_expected(offset_of(items, k), tag_text(Expr::tag_of(other)))),
        }
    }
}

/// The items of a list and the text of its head symbol.
pub open spec fn header(t: ExprTree) -> Result<(Seq<char>, Seq<ExprTree>), Seq<char>> {
    match t {
        ExprTree::List(items) => match symbol_at(items, 0) {
            Ok(head) => Ok((head, items)),
            Err(e) => Err(e),
        },
        other => Err("expected list at start of expression, got "@ + tag_text(Expr::tag_of(other))),
    }
}

/// The only field of a form of one symbol.
pub open spec fn single(items: Seq<ExprTree>, trailing: Seq<char>) -> Result<Seq<char>, Seq<char>> {
    match symbol_at(items, 1) {
        Ok(s) => if items.len() != 2 {
            Err(trailing)
        } else {
            Ok(s)
        },
        Err(e) => Err(e),
    }
}

pub open spec fn bool_of(s: Seq<char>) -> Result<PyValueView, Seq<char>> {
    if s == "true"@ {
        Ok(PyValueView::Bool(true))
    } else if s == "false"@ {
        Ok(PyValueView::Bool(false))
    } else {
        Err("invalid Bool payload "@ + quoted_text(s))
    }
}

pub open spec fn int_of(s: Seq<char>) -> Result<PyValueView, Seq<char>> {
    match i64_of(s) {
        Ok(v) => Ok(PyValueView::Int(v)),
        Err(e) => Err(e),
    }
}

pub open spec fn float_of(s: Seq<char>) -> Result<PyValueView, Seq<char>> {
    if is_float(encode_utf8(s)) {
        Ok(PyValueView::Float(float_form(s)))
    } else if s.len() == 0 {
        Err("cannot parse float from empty string"@)
    } else {
        Err("invalid float literal"@)
    }
}

/// The value that an expression writes, or why it writes none.
pub open spec fn value_of(t: ExprTree) -> Result<PyValueView, Seq<char>>
    decreases t, 0int,
{
    match t {
        ExprTree::Symbol(b) => match symbol_text(b) {
            Ok(s) => if s == "None"@ {
                Ok(PyValueView::NoneValue)
            } else {
                Err("unexpected atom "@ + quoted_text(s) + " for PyValue"@)
            },
            Err(e) => Err(e),
        },
        ExprTree::List(items) => match symbol_at(items, 0) {
            Err(e) => Err(e),
            Ok(head) => if head == "Bool"@ {
                match single(items, "Bool value has trailing data"@) {
                    Ok(s) => bool_of(s),
                    Err(e) => Err(e),
                }
            } else if head == "Int"@ {
                match single(items, "Int value has trailing data"@) {
                    Ok(s) => int_of(s),
                    Err(e) => Err(e),
                }
            } else if head == "Float"@ {
                match single(items, "Float value has trailing data"@) {
                    Ok(s) => float_of(s),
                    Err(e) => Err(e),
                }
            } else if head == "Str"@ {
                match single(items, "Str value has trailing data"@) {
                    Ok(s) => Ok(PyValueView::Str(s)),
                    Err(e) => Err(e),
                }
            } else if head == "List"@ {
                match values_from(items, 1) {
                    Ok(vs) => Ok(PyValueView::List(vs)),
                    Err(e) => Err(e),
                }
            } else if head == "Dict"@ {
                match entries_from(
                    items,
                    1,
                    "expected Entry inside Dict, got "@,
                    "Entry value has trailing data"@,
                ) {
                    Ok(es) => Ok(PyValueView::Dict(es)),
                    Err(e) => Err(e),
                }
            } else if head == "Handle"@ {
                match single(items, "Handle value has trailing data"@) {
                    Ok(s) => Ok(PyValueView::Handle(s)),
                    Err(e) => Err(e),
                }
            } else {
                Err("unknown PyValue form "@ + quoted_text(head))
            },
        },
        other => Err("unexpected tag "@ + tag_text(Expr::tag_of(other)) + " for PyValue"@),
    }
}

/// The values that the items from the `k`-th on write; the first that fails decides.
pub open spec fn values_from(items: Seq<ExprTree>, k: int) -> Result<Seq<PyValueView>, Seq<char>>
    decreases items, items.len() - k,
{
    if k < 0 || k >= items.len() {
        Ok(seq![])
    } else {
        match value_of(items[k]) {
            Err(e) => Err(e),
            Ok(v) => match values_from(items, k + 1) {
                Err(e) => Err(e),
                Ok(vs) => Ok(seq![v] + vs),
            },
        }
    }
}

/// The value that is item `k` of a list.
pub open spec fn value_at(items: Seq<ExprTree>, k: int) -> Result<PyValueView, Seq<char>>
    decreases items, 0int,
{
    if 0 <= k < items.len() {
        value_of(items[k])
    } else {
        Err(
            "expected value at offset "@ + dec_text(offset_of(items, items.len() as int))
                + ", got end of expression"@,
        )
    }
}

/// The named value that an expression writes.
pub open spec fn entry_of(t: ExprTree, outside: Seq<char>, trailing: Seq<char>) -> Result<
    (Seq<char>, PyValueView),
    Seq<char>,
>
    decreases t, 0int,
{
    match t {
        ExprTree::List(items) => match symbol_at(items, 0) {
            Err(e) => Err(e),
            Ok(head) => if head != "Entry"@ {
                Err(outside + quoted_text(head))
            } else {
                match symbol_at(items, 1) {
                    Err(e) => Err(e),
                    Ok(key) => match value_at(items, 2) {
                        Err(e) => Err(e),
                        Ok(v) => if items.len() != 3 {
                            Err(trailing)
                        } else {
                            Ok((key, v))
                        },
                    },
                }
            },
        },
        other => Err("expected list at start of expression, got "@ + tag_text(Expr::tag_of(other))),
    }
}

/// The named values that the items from the `k`-th on write; the first that fails decides.
pub open spec fn entries_from(
    items: Seq<ExprTree>,
    k: int,
    outside: Seq<char>,
    trailing: Seq<char>,
) -> Result<Seq<(Seq<char>, PyValueView)>, Seq<char>>
    decreases items, items.len() - k,
{
    if k < 0 || k >= items.len() {
        Ok(seq![])
    } else {
        match entry_of(items[k], outside, trailing) {
            Err(e) => Err(e),
            Ok(entry) => match entries_from(items, k + 1, outside, trailing) {
                Err(e) => Err(e),
                Ok(es) => Ok(seq![entry] + es),
            },
        }
    }
}

/// The positional arguments that an expression writes.
pub open spec fn args_of(t: ExprTree) -> Result<Seq<PyValueView>, Seq<char>> {
    match header(t) {
        Err(e) => Err(e),
        Ok((head, items)) => if head != "Args"@ {
            Err("expected Args, got "@ + quoted_text(head))
        } else {
            values_from(items, 1)
        },
    }
}

/// The named arguments that an expression writes.
pub open spec fn kwargs_of(t: ExprTree) -> Result<Seq<(Seq<char>, PyValueView)>, Seq<char>> {
    match header(t) {
        Err(e) => Err(e),
        Ok((head, items)) => if head != "Kwargs"@ {
            Err("expected Kwargs, got "@ + quoted_text(head))
        } else {
            entries_from(
                items,
                1,
                "expected Entry inside Kwargs, got "@,
                "Kwargs Entry has trailing data"@,
            )
        },
    }
}

pub open spec fn list_expected(off: nat) -> Seq<char> {
    "expected list at offset "@ + dec_text(off) + ", got end of expression"@
}

pub open spec fn args_at(items: Seq<ExprTree>, k: int) -> Result<Seq<PyValueView>, Seq<char>> {
    if 0 <= k < items.len() {
        args_of(items[k])
    } else {
        Err(list_expected(offset_of(items, items.len() as int)))
    }
}

pub open spec fn kwargs_at(items: Seq<ExprTree>, k: int) -> Result<
    Seq<(Seq<char>, PyValueView)>,
    Seq<char>,
> {
    if 0 <= k < items.len() {
        kwargs_of(items[k])
    } else {
        Err(list_expected(offset_of(items, items.len() as int)))
    }
}

/// Two symbols and nothing else.
pub open spec fn two_symbols(items: Seq<ExprTree>, trailing: Seq<char>) -> Result<
    (Seq<char>, Seq<char>),
    Seq<char>,
> {
    match symbol_at(items, 1) {
        Err(e) => Err(e),
        Ok(a) => match symbol_at(items, 2) {
            Err(e) => Err(e),
            Ok(b) => if items.len() != 3 {
                Err(trailing)
            } else {
                Ok((a, b))
            },
        },
    }
}

/// Three symbols and nothing else.
pub open spec fn three_symbols(items: Seq<ExprTree>, trailing: Seq<char>) -> Result<
    (Seq<char>, Seq<char>, Seq<char>),
    Seq<char>,
> {
    match symbol_at(items, 1) {
        Err(e) => Err(e),
        Ok(a) => match symbol_at(items, 2) {
            Err(e) => Err(e),
            Ok(b) => match symbol_at(items, 3) {
                Err(e) => Err(e),
                Ok(c) => if items.len() != 4 {
                    Err(trailing)
                } else {
                    Ok((a, b, c))
                },
            },
        },
    }
}

/// Positional and named arguments as items 4 and 5, and nothing behind them.
pub open spec fn call_tail(items: Seq<ExprTree>, trailing: Seq<char>) -> Result<
    (Seq<PyValueView>, Seq<(Seq<char>, PyValueView)>),
    Seq<char>,
> {
    match args_at(items, 4) {
        Err(e) => Err(e),
        Ok(args) => match kwargs_at(items, 5) {
            Err(e) => Err(e),
            Ok(kwargs) => if items.len() != 6 {
                Err(trailing)
            } else {
                Ok((args, kwargs))
            },
        },
    }
}

/// The command that an expression writes, or why it writes none.
pub open spec fn command_of(t: ExprTree) -> Result<PyCommandView, Seq<char>> {
    match header(t) {
        Err(e) => Err(e),
        Ok((head, items)) => if head == "Import"@ {
            match two_symbols(items, "Import command has trailing data"@) {
                Ok((req_id, module)) => Ok(PyCommandView::Import { req_id, module }),
                Err(e) => Err(e),
            }
        } else if head == "ImportFile"@ {
            match three_symbols(items, "ImportFile command has trailing data"@) {
                Ok((req_id, module, path)) => Ok(PyCommandView::ImportFile { req_id, module, path }),
                Err(e) => Err(e),
            }
        } else if head == "GetAttr"@ {
            get_attr_of(items)
        } else if head == "GetVariable"@ {
            match two_symbols(items, "GetVariable command has trailing data"@) {
                Ok((req_id, name)) => Ok(PyCommandView::GetVariable { req_id, name }),
                Err(e) => Err(e),
            }
        } else if head == "SetVariable"@ {
            set_variable_of(items)
        } else if head == "Call"@ {
            call_of(items)
        } else if head == "CallMethod"@ {
            call_method_of(items)
        } else if head == "DropObject"@ {
            match two_symbols(items, "DropObject command has trailing data"@) {
                Ok((req_id, handle)) => Ok(PyCommandView::DropObject { req_id, handle }),
                Err(e) => Err(e),
            }
        } else {
            Err("unknown PyCommand form "@ + quoted_text(head))
        },
    }
}

pub open spec fn get_attr_of(items: Seq<ExprTree>) -> Result<PyCommandView, Seq<char>> {
    match symbol_at(items, 1) {
        Err(e) => Err(e),
        Ok(req_id) => match value_at(items, 2) {
            Err(e) => Err(e),
            Ok(target) => match symbol_at(items, 3) {
                Err(e) => Err(e),
                Ok(attr) => if items.len() != 4 {
                    Err("GetAttr command has trailing data"@)
                } else {
                    Ok(PyCommandView::GetAttr { req_id, target, attr })
                },
            },
        },
    }
}

pub open spec fn set_variable_of(items: Seq<ExprTree>) -> Result<PyCommandView, Seq<char>> {
    match symbol_at(items, 1) {
        Err(e) => Err(e),
        Ok(req_id) => match symbol_at(items, 2) {
            Err(e) => Err(e),
            Ok(name) => match value_at(items, 3) {
                Err(e) => Err(e),
                Ok(value) => if items.len() != 4 {
                    Err("SetVariable command has trailing data"@)
                } else {
                    Ok(PyCommandView::SetVariable { req_id, name, value })
                },
            },
        },
    }
}

pub open spec fn call_of(items: Seq<ExprTree>) -> Result<PyCommandView, Seq<char>> {
    match symbol_at(items, 1) {
        Err(e) => Err(e),
        Ok(req_id) => match symbol_at(items, 2) {
            Err(e) => Err(e),
            Ok(module) => match symbol_at(items, 3) {
                Err(e) => Err(e),
                Ok(function) => match call_tail(items, "Call command has trailing data"@) {
                    Err(e) => Err(e),
                    Ok((args, kwargs)) => Ok(
                        PyCommandView::Call { req_id, module, function, args, kwargs },
                    ),
                },
            },
        },
    }
}

pub open spec fn call_method_of(items: Seq<ExprTree>) -> Result<PyCommandView, Seq<char>> {
    match symbol_at(items, 1) {
        Err(e) => Err(e),
        Ok(req_id) => match value_at(items, 2) {
            Err(e) => Err(e),
            Ok(target) => match symbol_at(items, 3) {
                Err(e) => Err(e),
                Ok(method) => match call_tail(items, "CallMethod command has trailing data"@) {
                    Err(e) => Err(e),
                    Ok((args, kwargs)) => Ok(
                        PyCommandView::CallMethod { req_id, target, method, args, kwargs },
                    ),
                },
            },
        },
    }
}

/// The result that an expression writes, or why it writes none.
pub open spec fn result_of(t: ExprTree) -> Result<PyResultView, Seq<char>> {
    match header(t) {
        Err(e) => Err(e),
        Ok((head, items)) => if head == "Ok"@ {
            match value_at(items, 1) {
                Err(e) => Err(e),
                Ok(v) => if items.len() != 2 {
                    Err("Ok result has trailing data"@)
                } else {
                    Ok(PyResultView::Success(v))
                },
            }
        } else if head == "Error"@ {
            match three_symbols(items, "Error result has trailing data"@) {
                Ok((error_type, message, traceback)) => Ok(
                    PyResultView::Error { error_type, message, traceback },
                ),
                Err(e) => Err(e),
            }
        } else {
            Err("unknown PyResult form "@ + quoted_text(head))
        },
    }
}

/// An exec result says what the mathematical one says.
pub open spec fn same_text(r: Result<String, String>, s: Result<Seq<char>, Seq<char>>) -> bool {
    match r {
        Ok(v) => s == Ok::<Seq<char>, Seq<char>>(v@),
        Err(e) => s == Err::<Seq<char>, Seq<char>>(e@),
    }
}

proof fn lemma_child(items: Seq<ExprTree>, k: int)
    requires
        0 <= k < items.len(),
        addressable(ExprTree::List(items)),
    ensures
        addressable(items[k]),
{
    lemma_encode_all_take(items, k);
}

fn symbol_expected_text(off: usize, got: &str) -> (r: String)
    ensures
        r@ == symbol_expected(off as nat, got@),
{
    let mut out = concat("expected symbol at offset ", u64_text(off as u64).as_str());
    out.append(", got ");
    out.append(got);
    out
}

fn parse_symbol_at(items: &Vec<Expr>, k: usize) -> (r: Result<String, String>)
    requires
        addressable(ExprTree::List(exprs_view(items@))),
    ensures
        same_text(r, symbol_at(exprs_view(items@), k as int)),
{
    if k >= items.len() {
        let off = child_offset(items, items.len());
        return Err(symbol_expected_text(off, "end of expression"));
    }
    assert(exprs_view(items@)[k as int] == items@[k as int]@);
    match &items[k] {
        Expr::Symbol(b) => string_from_utf8(b.as_slice()),
        other => {
            let off = child_offset(items, k);
            Err(symbol_expected_text(off, tag_name(other.tag()).as_str()))
        },
    }
}

fn parse_form_header(expr: &Expr) -> (r: Result<(String, &Vec<Expr>), String>)
    requires
        addressable(expr@),
    ensures
        match r {
            Ok((head, items)) => header(expr@) == Ok::<(Seq<char>, Seq<ExprTree>), Seq<char>>(
                (head@, exprs_view(items@)),
            ) && expr@ == ExprTree::List(exprs_view(items@)) && *expr == Expr::List(*items),
            Err(e) => header(expr@) == Err::<(Seq<char>, Seq<ExprTree>), Seq<char>>(e@),
        },
{
    match expr {
        Expr::List(items) => match parse_symbol_at(items, 0) {
            Ok(head) => Ok((head, items)),
            Err(e) => Err(e),
        },
        other => Err(
            concat("expected list at start of expression, got ", tag_name(other.tag()).as_str()),
        ),
    }
}

fn parse_single(items: &Vec<Expr>, trailing: &str) -> (r: Result<String, String>)
    requires
        addressable(ExprTree::List(exprs_view(items@))),
    ensures
        same_text(r, single(exprs_view(items@), trailing@)),
{
    match parse_symbol_at(items, 1) {
        Ok(s) => if items.len() != 2 {
            Err(trailing.to_owned())
        } else {
            Ok(s)
        },
        Err(e) => Err(e),
    }
}

pub open spec fn same_value(
    r: Result<PyValue, String>,
    s: Result<PyValueView, Seq<char>>,
) -> bool {
    match r {
        Ok(v) => s == Ok::<PyValueView, Seq<char>>(v@),
        Err(e) => s == Err::<PyValueView, Seq<char>>(e@),
    }
}

fn parse_bool(s: String) -> (r: Result<PyValue, String>)
    ensures
        same_value(r, bool_of(s@)),
{
    if str_eq(s.as_str(), "true") {
        Ok(PyValue::Bool(true))
    } else if str_eq(s.as_str(), "false") {
        Ok(PyValue::Bool(false))
    } else {
        Err(concat("invalid Bool payload ", quoted(s.as_str()).as_str()))
    }
}

fn parse_int(s: String) -> (r: Result<PyValue, String>)
    ensures
        same_value(r, int_of(s@)),
{
    match i64_from_text(s.as_str()) {
        Ok(v) => Ok(PyValue::Int(v)),
        Err(e) => Err(e),
    }
}

fn parse_float(s: String) -> (r: Result<PyValue, String>)
    ensures
        same_value(r, float_of(s@)),
{
    if check_float(s.as_str().as_bytes()) {
        Ok(PyValue::Float(print_float(s.as_str())))
    } else if s.as_str().is_empty() {
        Err("cannot parse float from empty string".to_owned())
    } else {
        Err("invalid float literal".to_owned())
    }
}

/// Reads a value.
#[verifier::rlimit(40)]
fn parse_py_value_expr(expr: &Expr) -> (r: Result<PyValue, String>)
    requires
        addressable(expr@),
    ensures
        same_value(r, value_of(expr@)),
    decreases expr, 0int,
{
    match expr {
        Expr::Symbol(b) => match string_from_utf8(b.as_slice()) {
            Ok(s) => if str_eq(s.as_str(), "None") {
                Ok(PyValue::NoneValue)
            } else {
                let mut out = concat("unexpected atom ", quoted(s.as_str()).as_str());
                out.append(" for PyValue");
                Err(out)
            },
            Err(e) => Err(e),
        },
        Expr::List(items) => {
            let head = match parse_symbol_at(items, 0) {
                Ok(head) => head,
                Err(e) => return Err(e),
            };
            if str_eq(head.as_str(), "Bool") {
                match parse_single(items, "Bool value has trailing data") {
                    Ok(s) => parse_bool(s),
                    Err(e) => Err(e),
                }
            } else if str_eq(head.as_str(), "Int") {
                match parse_single(items, "Int value has trailing data") {
                    Ok(s) => parse_int(s),
                    Err(e) => Err(e),
                }
            } else if str_eq(head.as_str(), "Float") {
                match parse_single(items, "Float value has trailing data") {
                    Ok(s) => parse_float(s),
                    Err(e) => Err(e),
                }
            } else if str_eq(head.as_str(), "Str") {
                match parse_single(items, "Str value has trailing data") {
                    Ok(s) => Ok(PyValue::Str(s)),
                    Err(e) => Err(e),
                }
            } else if str_eq(head.as_str(), "List") {
                match parse_values(items) {
                    Ok(vs) => Ok(PyValue::List(vs)),
                    Err(e) => Err(e),
                }
            } else if str_eq(head.as_str(), "Dict") {
                match parse_entries(
                    items,
                    "expected Entry inside Dict, got ",
                    "Entry value has trailing data",
                ) {
                    Ok(es) => Ok(PyValue::Dict(es)),
                    Err(e) => Err(e),
                }
            } else if str_eq(head.as_str(), "Handle") {
                match parse_single(items, "Handle value has trailing data") {
                    Ok(s) => Ok(PyValue::Handle(s)),
                    Err(e) => Err(e),
                }
            } else {
                Err(concat("unknown PyValue form ", quoted(head.as_str()).as_str()))
            }
        },
        other => {
            let mut out = concat("unexpected tag ", tag_name(other.tag()).as_str());
            out.append(" for PyValue");
            Err(out)
        },
    }
}

/// Reads the values behind the head of a list.
fn parse_values(items: &Vec<Expr>) -> (r: Result<Vec<PyValue>, String>)
    requires
        addressable(ExprTree::List(exprs_view(items@))),
    ensures
        match r {
            Ok(vs) => values_from(exprs_view(items@), 1) == Ok::<Seq<PyValueView>, Seq<char>>(
                values_view(vs@),
            ),
            Err(e) => values_from(exprs_view(items@), 1) == Err::<Seq<PyValueView>, Seq<char>>(e@),
        },
    decreases items, 0int,
{
    let ghost ts = exprs_view(items@);
    let mut values: Vec<PyValue> = Vec::new();
    let mut k: usize = 1;
    assert(values_view(values@) =~= seq![]);
    proof {
        if let Ok(vs) = values_from(ts, 1) {
            assert(values_view(values@) + vs =~= vs);
        }
    }
    while k < items.len()
        invariant
            1 <= k,
            ts == exprs_view(items@),
            addressable(ExprTree::List(ts)),
            values_from(ts, 1) == (match values_from(ts, k as int) {
                Ok(vs) => Ok(values_view(values@) + vs),
                Err(e) => Err(e),
            }),
        decreases items@.len() - k,
    {
        proof {
            assert(ts[k as int] == items@[k as int]@);
            lemma_child(ts, k as int);
        }
        let ghost before = values@;
        match parse_py_value_expr(&items[k]) {
            Ok(v) => {
                values.push(v);
                proof {
                    assert(values_view(values@) =~= values_view(before) + seq![v@]);
                    if let Ok(vs) = values_from(ts, k + 1) {
                        assert(values_view(before) + (seq![v@] + vs) =~= values_view(values@) + vs);
                    }
                }
            },
            Err(e) => return Err(e),
        }
        k = k + 1;
    }
    assert(values_view(values@) + seq![] =~= values_view(values@));
    Ok(values)
}

/// Reads item `k` of a list as a value.
fn parse_value_at(items: &Vec<Expr>, k: usize) -> (r: Result<PyValue, String>)
    requires
        addressable(ExprTree::List(exprs_view(items@))),
    ensures
        same_value(r, value_at(exprs_view(items@), k as int)),
    decreases items, 0int,
{
    if k >= items.len() {
        let off = child_offset(items, items.len());
        let mut out = concat("expected value at offset ", u64_text(off as u64).as_str());
        out.append(", got end of expression");
        return Err(out);
    }
    proof {
        assert(exprs_view(items@)[k as int] == items@[k as int]@);
        lemma_child(exprs_view(items@), k as int);
    }
    parse_py_value_expr(&items[k])
}

/// Reads a named value.
fn parse_entry(expr: &Expr, outside: &str, trailing: &str) -> (r: Result<
    (String, PyValue),
    String,
>)
    requires
        addressable(expr@),
    ensures
        match r {
            Ok((key, v)) => entry_of(expr@, outside@, trailing@) == Ok::<
                (Seq<char>, PyValueView),
                Seq<char>,
            >((key@, v@)),
            Err(e) => entry_of(expr@, outside@, trailing@) == Err::<
                (Seq<char>, PyValueView),
                Seq<char>,
            >(e@),
        },
    decreases expr, 0int,
{
    match expr {
        Expr::List(items) => {
            let head = match parse_symbol_at(items, 0) {
                Ok(head) => head,
                Err(e) => return Err(e),
            };
            if !str_eq(head.as_str(), "Entry") {
                return Err(concat(outside, quoted(head.as_str()).as_str()));
            }
            let key = match parse_symbol_at(items, 1) {
                Ok(key) => key,
                Err(e) => return Err(e),
            };
            let value = match parse_value_at(items, 2) {
                Ok(value) => value,
                Err(e) => return Err(e),
            };
            if items.len() != 3 {
                return Err(trailing.to_owned());
            }
            Ok((key, value))
        },
        other => Err(
            concat("expected list at start of expression, got ", tag_name(other.tag()).as_str()),
        ),
    }
}

/// Reads the named values behind the head of a list.
fn parse_entries(items: &Vec<Expr>, outside: &str, trailing: &str) -> (r: Result<
    Vec<(String, PyValue)>,
    String,
>)
    requires
        addressable(ExprTree::List(exprs_view(items@))),
    ensures
        match r {
            Ok(es) => entries_from(exprs_view(items@), 1, outside@, trailing@) == Ok::<
                Seq<(Seq<char>, PyValueView)>,
                Seq<char>,
            >(entries_view(es@)),
            Err(e) => entries_from(exprs_view(items@), 1, outside@, trailing@) == Err::<
                Seq<(Seq<char>, PyValueView)>,
                Seq<char>,
            >(e@),
        },
    decreases items, 0int,
{
    let ghost ts = exprs_view(items@);
    let mut entries: Vec<(String, PyValue)> = Vec::new();
    let mut k: usize = 1;
    assert(entries_view(entries@) =~= seq![]);
    proof {
        if let Ok(es) = entries_from(ts, 1, outside@, trailing@) {
            assert(entries_view(entries@) + es =~= es);
        }
    }
    while k < items.len()
        invariant
            1 <= k,
            ts == exprs_view(items@),
            addressable(ExprTree::List(ts)),
            entries_from(ts, 1, outside@, trailing@) == (match entries_from(
                ts,
                k as int,
                outside@,
                trailing@,
            ) {
                Ok(es) => Ok(entries_view(entries@) + es),
                Err(e) => Err(e),
            }),
        decreases items@.len() - k,
    {
        proof {
            assert(ts[k as int] == items@[k as int]@);
            lemma_child(ts, k as int);
        }
        let ghost before = entries@;
        match parse_entry(&items[k], outside, trailing) {
            Ok((key, v)) => {
                entries.push((key, v));
                proof {
                    assert(entries_view(entries@) =~= entries_view(before) + seq![(key@, v@)]);
                    if let Ok(es) = entries_from(ts, k + 1, outside@, trailing@) {
                        assert(entries_view(before) + (seq![(key@, v@)] + es) =~= entries_view(
                            entries@,
                        ) + es);
                    }
                }
            },
            Err(e) => return Err(e),
        }
        k = k + 1;
    }
    assert(entries_view(entries@) + seq![] =~= entries_view(entries@));
    Ok(entries)
}

/// Reads the form of positional arguments that is item `k` of a list.
fn parse_py_args_expr(items: &Vec<Expr>, k: usize) -> (r: Result<Vec<PyValue>, String>)
    requires
        addressable(ExprTree::List(exprs_view(items@))),
    ensures
        match r {
            Ok(vs) => args_at(exprs_view(items@), k as int) == Ok::<Seq<PyValueView>, Seq<char>>(
                values_view(vs@),
            ),
            Err(e) => args_at(exprs_view(items@), k as int) == Err::<Seq<PyValueView>, Seq<char>>(
                e@,
            ),
        },
{
    if k >= items.len() {
        return Err(list_expected_text(child_offset(items, items.len())));
    }
    proof {
        assert(exprs_view(items@)[k as int] == items@[k as int]@);
        lemma_child(exprs_view(items@), k as int);
    }
    match parse_form_header(&items[k]) {
        Ok((head, fields)) => if !str_eq(head.as_str(), "Args") {
            Err(concat("expected Args, got ", quoted(head.as_str()).as_str()))
        } else {
            parse_values(fields)
        },
        Err(e) => Err(e),
    }
}

fn list_expected_text(off: usize) -> (r: String)
    ensures
        r@ == list_expected(off as nat),
{
    let mut out = concat("expected list at offset ", u64_text(off as u64).as_str());
    out.append(", got end of expression");
    out
}

/// Reads the form of named arguments that is item `k` of a list.
fn parse_py_kwargs_expr(items: &Vec<Expr>, k: usize) -> (r: Result<
    Vec<(String, PyValue)>,
    String,
>)
    requires
        addressable(ExprTree::List(exprs_view(items@))),
    ensures
        match r {
            Ok(es) => kwargs_at(exprs_view(items@), k as int) == Ok::<
                Seq<(Seq<char>, PyValueView)>,
                Seq<char>,
            >(entries_view(es@)),
            Err(e) => kwargs_at(exprs_view(items@), k as int) == Err::<
                Seq<(Seq<char>, PyValueView)>,
                Seq<char>,
            >(e@),
        },
{
    if k >= items.len() {
        return Err(list_expected_text(child_offset(items, items.len())));
    }
    proof {
        assert(exprs_view(items@)[k as int] == items@[k as int]@);
        lemma_child(exprs_view(items@), k as int);
    }
    match parse_form_header(&items[k]) {
        Ok((head, fields)) => if !str_eq(head.as_str(), "Kwargs") {
            Err(concat("expected Kwargs, got ", quoted(head.as_str()).as_str()))
        } else {
            parse_entries(
                fields,
                "expected Entry inside Kwargs, got ",
                "Kwargs Entry has trailing data",
            )
        },
        Err(e) => Err(e),
    }
}

fn parse_two_symbols(items: &Vec<Expr>, trailing: &str) -> (r: Result<(String, String), String>)
    requires
        addressable(ExprTree::List(exprs_view(items@))),
    ensures
        match r {
            Ok((a, b)) => two_symbols(exprs_view(items@), trailing@) == Ok::<
                (Seq<char>, Seq<char>),
                Seq<char>,
            >((a@, b@)),
            Err(e) => two_symbols(exprs_view(items@), trailing@) == Err::<
                (Seq<char>, Seq<char>),
                Seq<char>,
            >(e@),
        },
{
    match parse_symbol_at(items, 1) {
        Err(e) => Err(e),
        Ok(a) => match parse_symbol_at(items, 2) {
            Err(e) => Err(e),
            Ok(b) => if items.len() != 3 {
                Err(trailing.to_owned())
            } else {
                Ok((a, b))
            },
        },
    }
}

fn parse_three_symbols(items: &Vec<Expr>, trailing: &str) -> (r: Result<
    (String, String, String),
    String,
>)
    requires
        addressable(ExprTree::List(exprs_view(items@))),
    ensures
        match r {
            Ok((a, b, c)) => three_symbols(exprs_view(items@), trailing@) == Ok::<
                (Seq<char>, Seq<char>, Seq<char>),
                Seq<char>,
            >((a@, b@, c@)),
            Err(e) => three_symbols(exprs_view(items@), trailing@) == Err::<
                (Seq<char>, Seq<char>, Seq<char>),
                Seq<char>,
            >(e@),
        },
{
    match parse_symbol_at(items, 1) {
        Err(e) => Err(e),
        Ok(a) => match parse_symbol_at(items, 2) {
            Err(e) => Err(e),
            Ok(b) => match parse_symbol_at(items, 3) {
                Err(e) => Err(e),
                Ok(c) => if items.len() != 4 {
                    Err(trailing.to_owned())
                } else {
                    Ok((a, b, c))
                },
            },
        },
    }
}

fn parse_call_tail(items: &Vec<Expr>, trailing: &str) -> (r: Result<
    (Vec<PyValue>, Vec<(String, PyValue)>),
    String,
>)
    requires
        addressable(ExprTree::List(exprs_view(items@))),
    ensures
        match r {
            Ok((args, kwargs)) => call_tail(exprs_view(items@), trailing@) == Ok::<
                (Seq<PyValueView>, Seq<(Seq<char>, PyValueView)>),
                Seq<char>,
            >((values_view(args@), entries_view(kwargs@))),
            Err(e) => call_tail(exprs_view(items@), trailing@) == Err::<
                (Seq<PyValueView>, Seq<(Seq<char>, PyValueView)>),
                Seq<char>,
            >(e@),
        },
{
    match parse_py_args_expr(items, 4) {
        Err(e) => Err(e),
        Ok(args) => match parse_py_kwargs_expr(items, 5) {
            Err(e) => Err(e),
            Ok(kwargs) => if items.len() != 6 {
                Err(trailing.to_owned())
            } else {
                Ok((args, kwargs))
            },
        },
    }
}

pub open spec fn same_command(
    r: Result<PyCommand, String>,
    s: Result<PyCommandView, Seq<char>>,
) -> bool {
    match r {
        Ok(c) => s == Ok::<PyCommandView, Seq<char>>(c@),
        Err(e) => s == Err::<PyCommandView, Seq<char>>(e@),
    }
}

fn parse_get_attr(items: &Vec<Expr>) -> (r: Result<PyCommand, String>)
    requires
        addressable(ExprTree::List(exprs_view(items@))),
    ensures
        same_command(r, get_attr_of(exprs_view(items@))),
{
    match parse_symbol_at(items, 1) {
        Err(e) => Err(e),
        Ok(req_id) => match parse_value_at(items, 2) {
            Err(e) => Err(e),
            Ok(target) => match parse_symbol_at(items, 3) {
                Err(e) => Err(e),
                Ok(attr) => if items.len() != 4 {
                    Err("GetAttr command has trailing data".to_owned())
                } else {
                    Ok(PyCommand::GetAttr { req_id, target, attr })
                },
            },
        },
    }
}

fn parse_set_variable(items: &Vec<Expr>) -> (r: Result<PyCommand, String>)
    requires
        addressable(ExprTree::List(exprs_view(items@))),
    ensures
        same_command(r, set_variable_of(exprs_view(items@))),
{
    match parse_symbol_at(items, 1) {
        Err(e) => Err(e),
        Ok(req_id) => match parse_symbol_at(items, 2) {
            Err(e) => Err(e),
            Ok(name) => match parse_value_at(items, 3) {
                Err(e) => Err(e),
                Ok(value) => if items.len() != 4 {
                    Err("SetVariable command has trailing data".to_owned())
                } else {
                    Ok(PyCommand::SetVariable { req_id, name, value })
                },
            },
        },
    }
}

fn parse_call(items: &Vec<Expr>) -> (r: Result<PyCommand, String>)
    requires
        addressable(ExprTree::List(exprs_view(items@))),
    ensures
        same_command(r, call_of(exprs_view(items@))),
{
    match parse_symbol_at(items, 1) {
        Err(e) => Err(e),
        Ok(req_id) => match parse_symbol_at(items, 2) {
            Err(e) => Err(e),
            Ok(module) => match parse_symbol_at(items, 3) {
                Err(e) => Err(e),
                Ok(function) => match parse_call_tail(items, "Call command has trailing data") {
                    Err(e) => Err(e),
                    Ok((args, kwargs)) => Ok(
                        PyCommand::Call { req_id, module, function, args, kwargs },
                    ),
                },
            },
        },
    }
}

fn parse_call_method(items: &Vec<Expr>) -> (r: Result<PyCommand, String>)
    requires
        addressable(ExprTree::List(exprs_view(items@))),
    ensures
        same_command(r, call_method_of(exprs_view(items@))),
{
    match parse_symbol_at(items, 1) {
        Err(e) => Err(e),
        Ok(req_id) => match parse_value_at(items, 2) {
            Err(e) => Err(e),
            Ok(target) => match parse_symbol_at(items, 3) {
                Err(e) => Err(e),
                Ok(method) => match parse_call_tail(items, "CallMethod command has trailing data") {
                    Err(e) => Err(e),
                    Ok((args, kwargs)) => Ok(
                        PyCommand::CallMethod { req_id, target, method, args, kwargs },
                    ),
                },
            },
        },
    }
}

/// Reads a command.
#[verifier::rlimit(40)]
fn parse_py_command_expr(expr: &Expr) -> (r: Result<PyCommand, String>)
    requires
        addressable(expr@),
    ensures
        same_command(r, command_of(expr@)),
{
    let (head, items) = match parse_form_header(expr) {
        Ok(found) => found,
        Err(e) => return Err(e),
    };
    if str_eq(head.as_str(), "Import") {
        match parse_two_symbols(items, "Import command has trailing data") {
            Ok((req_id, module)) => Ok(PyCommand::Import { req_id, module }),
            Err(e) => Err(e),
        }
    } else if str_eq(head.as_str(), "ImportFile") {
        match parse_three_symbols(items, "ImportFile command has trailing data") {
            Ok((req_id, module, path)) => Ok(PyCommand::ImportFile { req_id, module, path }),
            Err(e) => Err(e),
        }
    } else if str_eq(head.as_str(), "GetAttr") {
        parse_get_attr(items)
    } else if str_eq(head.as_str(), "GetVariable") {
        match parse_two_symbols(items, "GetVariable command has trailing data") {
            Ok((req_id, name)) => Ok(PyCommand::GetVariable { req_id, name }),
            Err(e) => Err(e),
        }
    } else if str_eq(head.as_str(), "SetVariable") {
        parse_set_variable(items)
    } else if str_eq(head.as_str(), "Call") {
        parse_call(items)
    } else if str_eq(head.as_str(), "CallMethod") {
        parse_call_method(items)
    } else if str_eq(head.as_str(), "DropObject") {
        match parse_two_symbols(items, "DropObject command has trailing data") {
            Ok((req_id, handle)) => Ok(PyCommand::DropObject { req_id, handle }),
            Err(e) => Err(e),
        }
    } else {
        Err(concat("unknown PyCommand form ", quoted(head.as_str()).as_str()))
    }
}

pub open spec fn same_result(
    r: Result<PyResult, String>,
    s: Result<PyResultView, Seq<char>>,
) -> bool {
    match r {
        Ok(v) => s == Ok::<PyResultView, Seq<char>>(v@),
        Err(e) => s == Err::<PyResultView, Seq<char>>(e@),
    }
}

/// Reads a result.
fn parse_py_result_expr(expr: &Expr) -> (r: Result<PyResult, String>)
    requires
        addressable(expr@),
    ensures
        same_result(r, result_of(expr@)),
{
    let (head, items) = match parse_form_header(expr) {
        Ok(found) => found,
        Err(e) => return Err(e),
    };
    if str_eq(head.as_str(), "Ok") {
        match parse_value_at(items, 1) {
            Ok(v) => if items.len() != 2 {
                Err("Ok result has trailing data".to_owned())
            } else {
                Ok(PyResult::Success(v))
            },
            Err(e) => Err(e),
        }
    } else if str_eq(head.as_str(), "Error") {
        match parse_three_symbols(items, "Error result has trailing data") {
            Ok((error_type, message, traceback)) => Ok(
                PyResult::Error { error_type, message, traceback },
            ),
            Err(e) => Err(e),
        }
    } else {
        Err(concat("unknown PyResult form ", quoted(head.as_str()).as_str()))
    }
}

/// The value that an expression writes.
pub fn py_value_from_expr(expr: &Expr) -> (r: Result<PyValue, String>)
    requires
        addressable(expr@),
    ensures
        same_value(r, value_of(expr@)),
{
    parse_py_value_expr(expr)
}

/// The command that an expression writes.
pub fn py_command_from_expr(expr: &Expr) -> (r: Result<PyCommand, String>)
    requires
        addressable(expr@),
    ensures
        same_command(r, command_of(expr@)),
{
    parse_py_command_expr(expr)
}

/// The query that an expression writes; queries are commands.
pub fn py_query_from_expr(expr: &Expr) -> (r: Result<PyQuery, String>)
    requires
        addressable(expr@),
    ensures
        same_command(r, command_of(expr@)),
{
    py_command_from_expr(expr)
}

/// The result that an expression writes.
pub fn py_result_from_expr(expr: &Expr) -> (r: Result<PyResult, String>)
    requires
        addressable(expr@),
    ensures
        same_result(r, result_of(expr@)),
{
    parse_py_result_expr(expr)
}

} // verus!
