//! What wrapping is for: every exec of a transaction runs in the transaction's namespace, nothing
//! else is touched, and what carries no wrapper is shown as it is.
use vstd::prelude::*;
use vstd::utf8::encode_utf8;

use crate::transaction::{
    all_digits, is_suffix, txid_form, underscore_from, valid_txid,
};
use crate::wrap::{
    bare_item, joined, last_wrapper, last_wrapper_before, rewritten_from, text_of, unwrapped,
    unwrapped_from, wrapped, wrapped_items, wrapper, SExprView,
};

verus! {

/// Whether a list is a rule that can run: four items, of which the first is `exec`.
pub open spec fn runs(items: Seq<SExprView>) -> bool {
    items.len() == 4 && items[0] == SExprView::Atom("exec"@)
}

/// Wrapping goes item by item: an atom stays as it is; a list keeps its length, and each of its
/// items is wrapped in turn; only the location of a rule that can run is put behind the namespace.
pub proof fn wrapping_goes_item_by_item(e: SExprView, ns: Seq<char>, k: int)
    ensures
        e is Atom ==> wrapped(e, ns) == e,
        e matches SExprView::List(items) ==> (wrapped(e, ns) matches SExprView::List(out) && {
            &&& out.len() == items.len()
            &&& 0 <= k < items.len() && !(runs(items) && k == 1) ==> out[k] == wrapped(
                items[k],
                ns,
            )
            &&& runs(items) ==> out[1] == SExprView::List(
                seq![SExprView::Atom(ns), wrapped(items[1], ns)],
            )
        }),
{
    if let SExprView::List(items) = e {
        let inner = wrapped_items(items, ns);
        assert(inner.len() == items.len());
        if items.len() > 0 {
            assert(inner[0] == wrapped(items[0], ns));
            if items[0] is List {
                assert(inner[0] is List);
            }
        }
        if 0 <= k < items.len() {
            assert(inner[k] == wrapped(items[k], ns));
        }
        if runs(items) {
            assert(inner[1] == wrapped(items[1], ns));
        }
    }
}

/// Whether every rule in an expression that can run, at any depth, runs in a namespace.
pub open spec fn all_in(e: SExprView, ns: Seq<char>) -> bool
    decreases e,
{
    match e {
        SExprView::Atom(_) => true,
        SExprView::List(items) => (runs(items) ==> (items[1] matches SExprView::List(loc)
            && loc.len() == 2 && loc[0] == SExprView::Atom(ns))) && forall|k: int|
            0 <= k < items.len() ==> all_in(#[trigger] items[k], ns),
    }
}

/// After wrapping every rule that can run, at any depth, runs in the transaction's namespace.
pub proof fn every_rule_is_wrapped(e: SExprView, ns: Seq<char>)
    ensures
        all_in(wrapped(e, ns), ns),
    decreases e,
{
    if let SExprView::List(items) = e {
        wrapping_goes_item_by_item(e, ns, 0);
        let out = wrapped(e, ns)->List_0;
        assert forall|k: int| 0 <= k < out.len() implies all_in(#[trigger] out[k], ns) by {
            wrapping_goes_item_by_item(e, ns, k);
            every_rule_is_wrapped(items[k], ns);
            if runs(items) && k == 1 {
                let loc = seq![SExprView::Atom(ns), wrapped(items[1], ns)];
                assert(out[1] == SExprView::List(loc));
                assert(loc.len() == 2);
                assert forall|j: int| 0 <= j < loc.len() implies all_in(#[trigger] loc[j], ns) by {
                    if j == 0 {
                        assert(loc[0] == SExprView::Atom(ns));
                    } else {
                        assert(loc[1] == wrapped(items[1], ns));
                    }
                }
            }
        }
        if runs(out) {
            wrapping_goes_item_by_item(e, ns, 0);
            if items[0] is List {
                wrapping_goes_item_by_item(items[0], ns, 0);
            }
            assert(runs(items));
        }
    }
}

/// Whether an expression holds no wrapped rule at any depth.
pub open spec fn bare(e: SExprView) -> bool
    decreases e,
{
    match e {
        SExprView::Atom(_) => true,
        SExprView::List(items) => !(runs(items) && (items[1] matches SExprView::List(loc)
            && loc.len() == 2 && (loc[0] matches SExprView::Atom(a) && txid_form(a)))) && forall|
            k: int,
        |
            0 <= k < items.len() ==> bare(#[trigger] items[k]),
    }
}

/// What holds no wrapped rule is shown as it is, and belongs to no transaction.
pub proof fn what_is_bare_stays(e: SExprView)
    requires
        bare(e),
    ensures
        unwrapped(e) == e,
        last_wrapper(e) is None,
    decreases e, 0int,
{
    if let SExprView::List(items) = e {
        assert(wrapper(items) is None);
        lemma_items_stay(items, 0);
        lemma_no_owner(items, items.len() as int);
        assert(items.skip(0) =~= items);
    }
}

proof fn lemma_items_stay(items: Seq<SExprView>, k: int)
    requires
        0 <= k <= items.len(),
        wrapper(items) is None,
        forall|j: int| 0 <= j < items.len() ==> bare(#[trigger] items[j]),
    ensures
        unwrapped_from(items, k) == items.skip(k),
    decreases items, items.len() - k,
{
    if k < items.len() {
        assert(bare_item(items, k) == items[k]);
        what_is_bare_stays(items[k]);
        lemma_items_stay(items, k + 1);
        assert(seq![items[k]] + items.skip(k + 1) =~= items.skip(k));
    } else {
        assert(items.skip(k) =~= seq![]);
    }
}

proof fn lemma_no_owner(items: Seq<SExprView>, k: int)
    requires
        0 <= k <= items.len(),
        wrapper(items) is None,
        forall|j: int| 0 <= j < items.len() ==> bare(#[trigger] items[j]),
    ensures
        last_wrapper_before(items, k) is None,
    decreases items, k,
{
    if k > 0 {
        assert(bare_item(items, k - 1) == items[k - 1]);
        what_is_bare_stays(items[k - 1]);
        lemma_no_owner(items, k - 1);
    }
}

/// A rewritten source is, in order, every expression of the source, wrapped and closed with a line
/// end.
pub proof fn every_expression_is_rewritten(es: Seq<SExprView>, ns: Seq<char>)
    ensures
        rewritten_from(es, ns, 0) == es.map_values(
            |e: SExprView| text_of(wrapped(e, ns)) + seq!['\n'],
        ).flatten(),
{
    lemma_rewritten(es, ns, 0);
    assert(es.skip(0) =~= es);
}

proof fn lemma_rewritten(es: Seq<SExprView>, ns: Seq<char>, k: int)
    requires
        0 <= k <= es.len(),
    ensures
        rewritten_from(es, ns, k) == es.skip(k).map_values(
            |e: SExprView| text_of(wrapped(e, ns)) + seq!['\n'],
        ).flatten(),
    decreases es.len() - k,
{
    let made = |e: SExprView| text_of(wrapped(e, ns)) + seq!['\n'];
    let all = es.skip(k).map_values(made);
    if k < es.len() {
        lemma_rewritten(es, ns, k + 1);
        reveal_strlit("\n");
        assert("\n"@ =~= seq!['\n']);
        assert(all.first() == made(es[k]));
        assert(all.drop_first() =~= es.skip(k + 1).map_values(made));
    } else {
        assert(all =~= Seq::<Seq<char>>::empty());
    }
}

/// An expression is printed as its items in order, with a space between them, inside brackets.
pub proof fn a_list_is_printed_item_by_item(items: Seq<SExprView>, last: SExprView)
    ensures
        text_of(SExprView::List(Seq::<SExprView>::empty())) == seq!['(', ')'],
        items.len() == 0 ==> joined(items.push(last), 0) == text_of(last),
        items.len() > 0 ==> joined(items.push(last), 0) == joined(items, 0) + seq![' '] + text_of(
            last,
        ),
        text_of(SExprView::List(items)) == seq!['('] + joined(items, 0) + seq![')'],
{
    reveal_strlit("(");
    reveal_strlit(")");
    assert("("@ =~= seq!['('] && ")"@ =~= seq![')']);
    assert(text_of(SExprView::List(Seq::<SExprView>::empty())) =~= seq!['(', ')']);
    lemma_joined_push(items, last, 0);
    if items.len() == 0 {
        assert(text_of(last) + Seq::<char>::empty() =~= text_of(last));
    }
}

proof fn lemma_joined_push(items: Seq<SExprView>, last: SExprView, k: int)
    requires
        0 <= k <= items.len(),
    ensures
        k == items.len() && k == 0 ==> joined(items.push(last), k) == text_of(last),
        k == items.len() && k > 0 ==> joined(items.push(last), k) == seq![' '] + text_of(last),
        k < items.len() ==> joined(items.push(last), k) == joined(items, k) + seq![' '] + text_of(
            last,
        ),
    decreases items.len() - k,
{
    let all = items.push(last);
    reveal_strlit(" ");
    assert(" "@ =~= seq![' ']);
    reveal_with_fuel(joined, 2);
    if k < items.len() {
        assert(all[k] == items[k]);
        lemma_joined_push(items, last, k + 1);
        assert(joined(all, k) =~= joined(items, k) + seq![' '] + text_of(last));
    } else {
        assert(all[k] == last);
        assert(joined(all, k + 1) =~= seq![]);
        if k == 0 {
            assert(joined(all, k) =~= text_of(last));
        } else {
            assert(joined(all, k) =~= seq![' '] + text_of(last));
        }
    }
}

/// A transaction identifier is `tx`, digits, `_` and eight lower-case letters or digits, in at most
/// 63 bytes: anything of that form is one, and nothing else.
pub proof fn an_identifier_has_one_form(s: Seq<char>, u: int)
    ensures
        ({
            let b = encode_utf8(s);
            2 < u && u + 9 == b.len() && b.len() <= 63 && b[0] == 116 && b[1] == 120 && b[u] == 95
                && (forall|i: int| 2 <= i < u ==> 48 <= #[trigger] b[i] <= 57) && (forall|i: int|
                u < i < b.len() ==> 97 <= #[trigger] b[i] <= 122 || 48 <= b[i] <= 57)
                ==> valid_txid(s)
        }),
        valid_txid(s) ==> {
            let b = encode_utf8(s);
            exists|v: int|
                2 < v && v + 9 == b.len() && b.len() <= 63 && b[0] == 116 && b[1] == 120
                    && #[trigger] b[v] == 95 && (forall|i: int|
                    2 <= i < v ==> 48 <= #[trigger] b[i] <= 57) && (forall|i: int|
                    v < i < b.len() ==> 97 <= #[trigger] b[i] <= 122 || 48 <= b[i] <= 57)
        },
{
    let b = encode_utf8(s);
    if 2 < u && u + 9 == b.len() && b.len() <= 63 && b[0] == 116 && b[1] == 120 && b[u] == 95 && (
    forall|i: int| 2 <= i < u ==> 48 <= #[trigger] b[i] <= 57) && (forall|i: int|
        u < i < b.len() ==> 97 <= #[trigger] b[i] <= 122 || 48 <= b[i] <= 57) {
        lemma_separator(b, 2, u);
        let d = b.subrange(2, u);
        let x = b.skip(u + 1);
        assert forall|i: int| 0 <= i < d.len() implies crate::text::is_digit(#[trigger] d[i]) by {
            assert(d[i] == b[i + 2]);
        }
        assert forall|i: int| 0 <= i < x.len() implies crate::transaction::is_suffix_byte(
            #[trigger] x[i],
        ) by {
            assert(x[i] == b[i + u + 1]);
        }
        assert(all_digits(d) && is_suffix(x));
    }
    if valid_txid(s) {
        lemma_separator_found(b, 2);
        let v = underscore_from(b, 2)->0;
        let d = b.subrange(2, v);
        let x = b.skip(v + 1);
        assert forall|i: int| 2 <= i < v implies 48 <= #[trigger] b[i] <= 57 by {
            assert(d[i - 2] == b[i]);
            assert(crate::text::is_digit(d[i - 2]));
        }
        assert forall|i: int| v < i < b.len() implies 97 <= #[trigger] b[i] <= 122 || 48 <= b[i]
            <= 57 by {
            assert(x[i - v - 1] == b[i]);
            assert(crate::transaction::is_suffix_byte(x[i - v - 1]));
        }
        assert(b[v] == 95);
    }
}

proof fn lemma_separator(b: Seq<u8>, i: int, u: int)
    requires
        0 <= i <= u < b.len(),
        b[u] == 95,
        forall|k: int| i <= k < u ==> #[trigger] b[k] != 95,
    ensures
        underscore_from(b, i) == Some(u),
    decreases u - i,
{
    if i < u {
        lemma_separator(b, i + 1, u);
    }
}

proof fn lemma_separator_found(b: Seq<u8>, i: int)
    requires
        0 <= i,
    ensures
        underscore_from(b, i) matches Some(v) ==> i <= v < b.len() && b[v] == 95,
    decreases b.len() - i,
{
    if i < b.len() && b[i] != 95 {
        lemma_separator_found(b, i + 1);
    }
}

} // verus!
