//! What is told of an expression that is no command, no value and no result: where it goes wrong,
//! and how.
use vstd::prelude::*;
use vstd::utf8::{encode_utf8, valid_utf8};

use crate::expr::{encode, encode_all, lemma_encode_all_take, offset_of, tag_text, ExprTree, Tag};
use crate::float_text::float_form;
use crate::python::parse::{args_of, command_of, kwargs_of, result_of, value_of};
use crate::python::protocol::{PyCommandView, PyResultView, PyValueView};
use crate::text::{dec_text, i64_of, is_float, quoted_text};

verus! {

/// A list with that name before its other items.
pub open spec fn headed(head: Seq<char>, rest: Seq<ExprTree>) -> ExprTree {
    ExprTree::List(seq![ExprTree::Symbol(encode_utf8(head))] + rest)
}

/// A symbol of that text.
pub open spec fn word(s: Seq<char>) -> ExprTree {
    ExprTree::Symbol(encode_utf8(s))
}

proof fn lemma_word(s: Seq<char>)
    ensures
        valid_utf8(encode_utf8(s)),
        vstd::utf8::decode_utf8(encode_utf8(s)) == s,
{
    vstd::utf8::encode_utf8_valid_utf8(s);
    vstd::utf8::encode_utf8_decode_utf8(s);
}

/// An item is told of by the place of its first byte in the encoding of its list, and the end of a
/// list by the length of that encoding.
pub proof fn offsets_are_places(items: Seq<ExprTree>, k: int)
    requires
        0 <= k <= items.len(),
    ensures
        ({
            let bytes = encode(ExprTree::List(items));
            &&& k < items.len() ==> bytes.subrange(
                offset_of(items, k) as int,
                offset_of(items, k) + encode(items[k]).len() as int,
            ) == encode(items[k])
            &&& k == items.len() ==> offset_of(items, k) == bytes.len()
        }),
{
    if k < items.len() {
        lemma_rest(items, k);
        let bytes = encode(ExprTree::List(items));
        let before = encode_all(items.take(k));
        let after = encode_all(items.skip(k));
        assert(items.skip(k)[0] == items[k]);
        assert(after == encode(items[k]) + encode_all(items.skip(k).drop_first()));
        assert(bytes =~= seq![items.len() as u8] + (before + after));
        assert(bytes.subrange(
            offset_of(items, k) as int,
            offset_of(items, k) + encode(items[k]).len() as int,
        ) =~= encode(items[k]));
    } else {
        assert(items.take(k) =~= items);
    }
}

proof fn lemma_rest(items: Seq<ExprTree>, k: int)
    requires
        0 <= k <= items.len(),
    ensures
        encode_all(items) == encode_all(items.take(k)) + encode_all(items.skip(k)),
    decreases k,
{
    if k == 0 {
        assert(items.take(0) =~= seq![]);
        assert(items.skip(0) =~= items);
        assert(encode_all(seq![]) =~= seq![]);
        assert(encode_all(items) =~= encode_all(items.take(0)) + encode_all(items.skip(0)));
    } else {
        lemma_rest(items, k - 1);
        lemma_encode_all_take(items, k - 1);
        assert(items.skip(k - 1).drop_first() =~= items.skip(k));
        assert(encode_all(items) =~= encode_all(items.take(k)) + encode_all(items.skip(k)));
    }
}

/// A command, a result and arguments are lists; anything else is told by its tag.
pub proof fn only_lists_are_commands(t: ExprTree, tag: Tag)
    requires
        !(t is List),
        tag == match t {
            ExprTree::NewVar => Tag::NewVar,
            ExprTree::VarRef(i) => Tag::VarRef(i),
            ExprTree::Symbol(b) => Tag::SymbolSize(b.len() as u8),
            ExprTree::List(items) => Tag::Arity(items.len() as u8),
        },
    ensures
        ({
            let e = "expected list at start of expression, got "@ + tag_text(tag);
            &&& command_of(t) == Err::<PyCommandView, Seq<char>>(e)
            &&& result_of(t) == Err::<PyResultView, Seq<char>>(e)
            &&& args_of(t) == Err::<Seq<PyValueView>, Seq<char>>(e)
            &&& kwargs_of(t) == Err::<Seq<(Seq<char>, PyValueView)>, Seq<char>>(e)
        }),
        !(t is Symbol) ==> value_of(t) == Err::<PyValueView, Seq<char>>(
            "unexpected tag "@ + tag_text(tag) + " for PyValue"@,
        ),
{
}

/// A list that starts with another name than any that is known is told by that name.
pub proof fn unknown_names_are_told(head: Seq<char>, rest: Seq<ExprTree>)
    ensures
        head != "Import"@ && head != "ImportFile"@ && head != "GetAttr"@ && head != "GetVariable"@
            && head != "SetVariable"@ && head != "Call"@ && head != "CallMethod"@ && head
            != "DropObject"@ ==> command_of(headed(head, rest)) == Err::<PyCommandView, Seq<char>>(
            "unknown PyCommand form "@ + quoted_text(head),
        ),
        head != "Ok"@ && head != "Error"@ ==> result_of(headed(head, rest)) == Err::<
            PyResultView,
            Seq<char>,
        >("unknown PyResult form "@ + quoted_text(head)),
        head != "Bool"@ && head != "Int"@ && head != "Float"@ && head != "Str"@ && head != "List"@
            && head != "Dict"@ && head != "Handle"@ ==> value_of(headed(head, rest)) == Err::<
            PyValueView,
            Seq<char>,
        >("unknown PyValue form "@ + quoted_text(head)),
        head != "Args"@ ==> args_of(headed(head, rest)) == Err::<Seq<PyValueView>, Seq<char>>(
            "expected Args, got "@ + quoted_text(head),
        ),
        head != "Kwargs"@ ==> kwargs_of(headed(head, rest)) == Err::<
            Seq<(Seq<char>, PyValueView)>,
            Seq<char>,
        >("expected Kwargs, got "@ + quoted_text(head)),
        head != "None"@ ==> value_of(word(head)) == Err::<PyValueView, Seq<char>>(
            "unexpected atom "@ + quoted_text(head) + " for PyValue"@,
        ),
        value_of(word("None"@)) == Ok::<PyValueView, Seq<char>>(PyValueView::NoneValue),
{
    lemma_word(head);
    lemma_word("None"@);
    let items = seq![ExprTree::Symbol(encode_utf8(head))] + rest;
    assert(items[0] == ExprTree::Symbol(encode_utf8(head)));
}

proof fn lemma_value_names()
    ensures
        "Bool"@ != "Int"@ && "Bool"@ != "Float"@ && "Bool"@ != "Str"@ && "Bool"@ != "List"@
            && "Bool"@ != "Dict"@ && "Bool"@ != "Handle"@,
        "Int"@ != "Float"@ && "Int"@ != "Str"@ && "Int"@ != "List"@ && "Int"@ != "Dict"@ && "Int"@
            != "Handle"@,
        "Float"@ != "Str"@ && "Float"@ != "List"@ && "Float"@ != "Dict"@ && "Float"@ != "Handle"@,
        "Str"@ != "List"@ && "Str"@ != "Dict"@ && "Str"@ != "Handle"@,
        "List"@ != "Dict"@ && "List"@ != "Handle"@ && "Dict"@ != "Handle"@,
        "true"@ != "false"@,
{
    reveal_strlit("Bool");
    reveal_strlit("Int");
    reveal_strlit("Float");
    reveal_strlit("Str");
    reveal_strlit("List");
    reveal_strlit("Dict");
    reveal_strlit("Handle");
    reveal_strlit("true");
    reveal_strlit("false");
    assert("Bool"@[0] == 'B' && "Int"@[0] == 'I' && "Float"@[0] == 'F' && "Str"@[0] == 'S' && "List"@[0]
        == 'L' && "Dict"@[0] == 'D' && "Handle"@[0] == 'H');
    assert("true"@.len() != "false"@.len());
}

/// A simple value is its kind and one symbol, which writes it: `true` or `false`, an integer of 64
/// bits, a number, any text, or a handle. What writes none of the kind is told.
pub proof fn a_simple_value_is_one_symbol(s: Seq<char>)
    ensures
        value_of(headed("Bool"@, seq![word(s)])) == if s == "true"@ {
            Ok::<PyValueView, Seq<char>>(PyValueView::Bool(true))
        } else if s == "false"@ {
            Ok(PyValueView::Bool(false))
        } else {
            Err("invalid Bool payload "@ + quoted_text(s))
        },
        value_of(headed("Int"@, seq![word(s)])) == match i64_of(s) {
            Ok(n) => Ok::<PyValueView, Seq<char>>(PyValueView::Int(n)),
            Err(e) => Err(e),
        },
        value_of(headed("Float"@, seq![word(s)])) == if is_float(encode_utf8(s)) {
            Ok::<PyValueView, Seq<char>>(PyValueView::Float(float_form(s)))
        } else if s.len() == 0 {
            Err("cannot parse float from empty string"@)
        } else {
            Err("invalid float literal"@)
        },
        value_of(headed("Str"@, seq![word(s)])) == Ok::<PyValueView, Seq<char>>(
            PyValueView::Str(s),
        ),
        value_of(headed("Handle"@, seq![word(s)])) == Ok::<PyValueView, Seq<char>>(
            PyValueView::Handle(s),
        ),
{
    lemma_word(s);
    lemma_word("Bool"@);
    lemma_word("Int"@);
    lemma_word("Float"@);
    lemma_word("Str"@);
    lemma_word("Handle"@);
    lemma_value_names();
    lemma_pair("Bool"@, s);
    lemma_pair("Int"@, s);
    lemma_pair("Float"@, s);
    lemma_pair("Str"@, s);
    lemma_pair("Handle"@, s);
}

proof fn lemma_pair(head: Seq<char>, s: Seq<char>)
    ensures
        headed(head, seq![word(s)]) == ExprTree::List(seq![word(head), word(s)]),
{
    assert(seq![word(head)] + seq![word(s)] =~= seq![word(head), word(s)]);
}

/// A simple value with more behind it is refused, and its kind told.
pub proof fn a_simple_value_has_nothing_behind_it(s: Seq<char>, more: Seq<ExprTree>)
    requires
        more.len() > 0,
    ensures
        value_of(headed("Bool"@, seq![word(s)] + more)) == Err::<PyValueView, Seq<char>>(
            "Bool value has trailing data"@,
        ),
        value_of(headed("Int"@, seq![word(s)] + more)) == Err::<PyValueView, Seq<char>>(
            "Int value has trailing data"@,
        ),
        value_of(headed("Float"@, seq![word(s)] + more)) == Err::<PyValueView, Seq<char>>(
            "Float value has trailing data"@,
        ),
        value_of(headed("Str"@, seq![word(s)] + more)) == Err::<PyValueView, Seq<char>>(
            "Str value has trailing data"@,
        ),
        value_of(headed("Handle"@, seq![word(s)] + more)) == Err::<PyValueView, Seq<char>>(
            "Handle value has trailing data"@,
        ),
{
    lemma_word(s);
    lemma_word("Bool"@);
    lemma_word("Int"@);
    lemma_word("Float"@);
    lemma_word("Str"@);
    lemma_word("Handle"@);
    lemma_value_names();
    lemma_more("Bool"@, s, more);
    lemma_more("Int"@, s, more);
    lemma_more("Float"@, s, more);
    lemma_more("Str"@, s, more);
    lemma_more("Handle"@, s, more);
}

proof fn lemma_more(head: Seq<char>, s: Seq<char>, more: Seq<ExprTree>)
    ensures
        ({
            let items = headed(head, seq![word(s)] + more)->List_0;
            &&& items.len() == more.len() + 2
            &&& items[0] == word(head)
            &&& items[1] == word(s)
        }),
{
}

/// What a command with something behind it is told.
pub open spec fn trailing(c: PyCommandView) -> Seq<char> {
    match c {
        PyCommandView::Import { .. } => "Import command has trailing data"@,
        PyCommandView::ImportFile { .. } => "ImportFile command has trailing data"@,
        PyCommandView::GetAttr { .. } => "GetAttr command has trailing data"@,
        PyCommandView::GetVariable { .. } => "GetVariable command has trailing data"@,
        PyCommandView::SetVariable { .. } => "SetVariable command has trailing data"@,
        PyCommandView::Call { .. } => "Call command has trailing data"@,
        PyCommandView::CallMethod { .. } => "CallMethod command has trailing data"@,
        PyCommandView::DropObject { .. } => "DropObject command has trailing data"@,
    }
}

/// A command with anything behind it is none, and neither is a result; its kind is told.
pub proof fn nothing_may_follow(items: Seq<ExprTree>, x: ExprTree)
    ensures
        command_of(ExprTree::List(items)) matches Ok(c) ==> command_of(
            ExprTree::List(items.push(x)),
        ) == Err::<PyCommandView, Seq<char>>(trailing(c)),
        result_of(ExprTree::List(items)) matches Ok(r) ==> result_of(ExprTree::List(items.push(x)))
            == Err::<PyResultView, Seq<char>>(
            if r is Success {
                "Ok result has trailing data"@
            } else {
                "Error result has trailing data"@
            },
        ),
{
    let more = items.push(x);
    assert(forall|k: int| 0 <= k < items.len() ==> #[trigger] more[k] == items[k]);
}

/// A command that ends too early is told where, and what was missing; so is one with something
/// other than a symbol in the place of one.
pub proof fn a_missing_name_is_told(items: Seq<ExprTree>, id: Seq<char>)
    requires
        items.len() >= 1,
        items[0] == word("Import"@) || items[0] == word("GetVariable"@) || items[0] == word(
            "DropObject"@,
        ),
        items.len() >= 2 ==> items[1] == word(id),
        items.len() < 3 || !(items[2] is Symbol),
    ensures
        command_of(ExprTree::List(items)) == Err::<PyCommandView, Seq<char>>(
            "expected symbol at offset "@ + dec_text(
                if items.len() < 3 {
                    encode(ExprTree::List(items)).len()
                } else {
                    offset_of(items, 2)
                },
            ) + ", got "@ + (if items.len() < 3 {
                "end of expression"@
            } else {
                match items[2] {
                    ExprTree::NewVar => "NewVar"@,
                    ExprTree::VarRef(i) => tag_text(Tag::VarRef(i)),
                    ExprTree::Symbol(b) => tag_text(Tag::SymbolSize(b.len() as u8)),
                    ExprTree::List(l) => tag_text(Tag::Arity(l.len() as u8)),
                }
            }),
        ),
{
    lemma_word(id);
    lemma_word("Import"@);
    lemma_word("GetVariable"@);
    lemma_word("DropObject"@);
    offsets_are_places(items, items.len() as int);
    reveal_strlit("Import");
    reveal_strlit("ImportFile");
    reveal_strlit("GetAttr");
    reveal_strlit("GetVariable");
    reveal_strlit("SetVariable");
    reveal_strlit("Call");
    reveal_strlit("CallMethod");
    reveal_strlit("DropObject");
    assert("Import"@.len() == 6 && "ImportFile"@.len() == 10 && "GetAttr"@.len() == 7
        && "GetVariable"@.len() == 11 && "SetVariable"@.len() == 11 && "Call"@.len() == 4
        && "CallMethod"@.len() == 10 && "DropObject"@.len() == 10);
    assert("ImportFile"@[0] == 'I' && "CallMethod"@[0] == 'C' && "DropObject"@[0] == 'D'
        && "GetVariable"@[0] == 'G' && "SetVariable"@[0] == 'S');
}

} // verus!
