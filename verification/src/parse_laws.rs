//! What source text is: blanks, brackets, words and strings, and what is told of text that is none;
//! which wrappers come off and whose execs they were; and what generated identifiers look like.
use vstd::arithmetic::power::pow;
use vstd::prelude::*;
use vstd::utf8::encode_utf8;

use crate::expr::{encodable, encode, encode_all, ExprTree};
use crate::text::{dec_text, readable_text};
use crate::transaction::txid_form;
use crate::wrap::{
    atom_end, joined, last_found, last_wrapper, last_wrapper_before, lemma_progress, lemma_ws_end,
    loc_prefix, parse_at, parse_from, parse_items, parsed, string_end, suffix_text, unwrapped,
    unwrapped_all, unwrapped_from, unwrapped_text, wrapper, ws_end, SExprView,
};

verus! {

/// Whether the byte is a blank: a space, or one of the five from tabulator to carriage return.
pub open spec fn blank(b: u8) -> bool {
    b == 9 || b == 10 || b == 11 || b == 12 || b == 13 || b == 32
}

/// Blanks before an expression, an item or the end mean nothing.
pub proof fn blanks_mean_nothing(b: Seq<u8>, i: int)
    requires
        0 <= i < b.len(),
        blank(b[i]),
    ensures
        parse_at(b, i) == parse_at(b, i + 1),
        parse_items(b, i) == parse_items(b, i + 1),
        parse_from(b, i) == parse_from(b, i + 1),
{
    lemma_ws_end(b, i + 1);
    let k = ws_end(b, i + 1);
    assert(ws_end(b, i) == k);
    if k < b.len() {
        lemma_progress(b, k);
    }
}

/// A word is an atom: it runs to the next blank or bracket, or to the end.
pub proof fn a_word_runs_to_the_next_break(b: Seq<u8>, i: int, e: int)
    requires
        0 <= i < e <= b.len(),
        b[i] != 34,
        forall|j: int| i <= j < e ==> #[trigger] b[j] != 40 && b[j] != 41 && !blank(b[j]),
        e < b.len() ==> b[e] == 40 || b[e] == 41 || blank(b[e]),
    ensures
        parse_at(b, i) == Ok::<(SExprView, int), Seq<char>>(
            (SExprView::Atom(readable_text(b.subrange(i, e))), e),
        ),
{
    assert(ws_end(b, i) == i);
    lemma_word(b, i, e);
}

proof fn lemma_word(b: Seq<u8>, i: int, e: int)
    requires
        0 <= i <= e <= b.len(),
        forall|j: int| i <= j < e ==> #[trigger] b[j] != 40 && b[j] != 41 && !blank(b[j]),
        e < b.len() ==> b[e] == 40 || b[e] == 41 || blank(b[e]),
    ensures
        atom_end(b, i) == e,
    decreases e - i,
{
    if i < e {
        assert(b[i] != 40 && b[i] != 41 && !blank(b[i]));
        lemma_word(b, i + 1, e);
    }
}

/// A string is an atom: it runs from a quote to the next one, and includes both. A backslash takes
/// what follows it along, whatever it is. A string that does not end is told to be unfinished, or
/// its last escape.
pub proof fn a_string_runs_to_its_quote(b: Seq<u8>, i: int)
    requires
        0 <= i <= b.len(),
    ensures
        i == b.len() ==> string_end(b, i) == Err::<int, Seq<char>>("unfinished string"@),
        i < b.len() && b[i] == '"' as u8 ==> string_end(b, i) == Ok::<int, Seq<char>>(i + 1),
        i + 1 < b.len() && b[i] == '\\' as u8 ==> string_end(b, i) == string_end(b, i + 2),
        i + 1 == b.len() && b[i] == '\\' as u8 ==> string_end(b, i) == Err::<int, Seq<char>>(
            "unfinished escape sequence"@,
        ),
        i < b.len() && b[i] != '"' as u8 && b[i] != '\\' as u8 ==> string_end(b, i) == string_end(
            b,
            i + 1,
        ),
        i < b.len() && b[i] == '"' as u8 ==> parse_at(b, i) == match string_end(b, i + 1) {
            Ok(e) => Ok::<(SExprView, int), Seq<char>>(
                (SExprView::Atom(readable_text(b.subrange(i, e))), e),
            ),
            Err(t) => Err(t),
        },
{
    if i < b.len() && b[i] == 34 {
        assert(ws_end(b, i) == i);
    }
}

/// A list runs from its bracket to the one that closes it. A bracket that closes nothing is told
/// with its place, and so are a list that is not closed and an expression that is missing.
pub proof fn brackets_make_lists(b: Seq<u8>, i: int)
    requires
        0 <= i <= b.len(),
    ensures
        i < b.len() && b[i] == '(' as u8 ==> parse_at(b, i) == match parse_items(b, i + 1) {
            Ok((items, e)) => Ok::<(SExprView, int), Seq<char>>((SExprView::List(items), e)),
            Err(t) => Err(t),
        },
        i < b.len() && b[i] == ')' as u8 ==> parse_at(b, i) == Err::<(SExprView, int), Seq<char>>(
            "unexpected ')' at byte "@ + dec_text(i as nat),
        ),
        i == b.len() ==> parse_at(b, i) == Err::<(SExprView, int), Seq<char>>(
            "unexpected end of input"@,
        ),
        i < b.len() && b[i] == ')' as u8 ==> parse_items(b, i) == Ok::<
            (Seq<SExprView>, int),
            Seq<char>,
        >((seq![], i + 1)),
        i == b.len() ==> parse_items(b, i) == Err::<(Seq<SExprView>, int), Seq<char>>(
            "unclosed '('"@,
        ),
        i == b.len() ==> parse_from(b, i) == Ok::<Seq<SExprView>, Seq<char>>(seq![]),
{
    if i < b.len() && (b[i] == 40 || b[i] == 41) {
        assert(ws_end(b, i) == i);
    }
}

/// The items of a list, and the expressions of a text, come one after the other; the first that
/// cannot be read is what is told.
pub proof fn expressions_come_one_by_one(b: Seq<u8>, i: int)
    requires
        0 <= i < b.len(),
        !blank(b[i]),
    ensures
        b[i] != ')' as u8 ==> parse_items(b, i) == match parse_at(b, i) {
            Err(t) => Err::<(Seq<SExprView>, int), Seq<char>>(t),
            Ok((e, mid)) => match parse_items(b, mid) {
                Err(t) => Err(t),
                Ok((rest, end)) => Ok((seq![e] + rest, end)),
            },
        },
        parse_from(b, i) == match parse_at(b, i) {
            Err(t) => Err::<Seq<SExprView>, Seq<char>>(t),
            Ok((e, mid)) => match parse_from(b, mid) {
                Err(t) => Err(t),
                Ok(rest) => Ok(seq![e] + rest),
            },
        },
{
    assert(ws_end(b, i) == i);
    lemma_progress(b, i);
}

/// A wrapper is taken off where it stands: of `(exec (txid location) ..)` the location is left, and
/// every item is unwrapped in turn.
pub proof fn unwrapping_goes_item_by_item(items: Seq<SExprView>, k: int)
    requires
        0 <= k < items.len(),
    ensures
        unwrapped(SExprView::List(items)) matches SExprView::List(out) && out.len() == items.len()
            && out[k] == unwrapped(
            if k == 1 && wrapper(items) is Some {
                items[1]->List_0[1]
            } else {
                items[k]
            },
        ),
        forall|a: Seq<char>| #[trigger] unwrapped(SExprView::Atom(a)) == SExprView::Atom(a),
{
    lemma_unwrapped_items(items, 0);
    assert(unwrapped_from(items, 0)[k - 0] == unwrapped(crate::wrap::bare_item(items, k)));
}

proof fn lemma_unwrapped_items(items: Seq<SExprView>, i: int)
    requires
        0 <= i <= items.len(),
    ensures
        unwrapped_from(items, i).len() == items.len() - i,
        forall|k: int|
            i <= k < items.len() ==> #[trigger] unwrapped_from(items, i)[k - i] == unwrapped(
                crate::wrap::bare_item(items, k),
            ),
    decreases items.len() - i,
{
    if i < items.len() {
        lemma_unwrapped_items(items, i + 1);
        assert forall|k: int| i <= k < items.len() implies #[trigger] unwrapped_from(items, i)[k - i]
            == unwrapped(crate::wrap::bare_item(items, k)) by {
            if k > i {
                assert(unwrapped_from(items, i)[k - i] == unwrapped_from(items, i + 1)[k - (i
                    + 1)]);
            }
        }
    }
}

/// A list is a wrapped exec where it has four items, starts with `exec`, and has as its second a
/// pair of an identifier and a location.
pub proof fn what_a_wrapper_is(items: Seq<SExprView>, id: Seq<char>)
    ensures
        wrapper(items) == Some(id) <==> items.len() == 4 && items[0] == SExprView::Atom("exec"@) && (
        items[1] matches SExprView::List(loc) && loc.len() == 2 && loc[0] == SExprView::Atom(id))
            && txid_form(id),
{
}

/// An expression belongs to the transaction of its last wrapper: what a later item says counts
/// before an earlier one, and what an item says before its list.
pub proof fn the_last_wrapper_counts(items: Seq<SExprView>, k: int)
    requires
        -1 <= k < items.len(),
        wrapper(items) is None || k != 1,
        forall|j: int|
            k < j < items.len() && !(j == 1 && wrapper(items) is Some) ==> last_wrapper(
                #[trigger] items[j],
            ) is None,
        wrapper(items) is Some && k < 1 ==> last_wrapper(items[1]->List_0[1]) is None,
        k >= 0 ==> last_wrapper(items[k]) is Some,
    ensures
        last_wrapper(SExprView::List(items)) == if k >= 0 {
            last_wrapper(items[k])
        } else {
            wrapper(items)
        },
        forall|a: Seq<char>| #[trigger] last_wrapper(SExprView::Atom(a)) is None,
{
    lemma_last_before(items, items.len() as int, k);
}

proof fn lemma_last_before(items: Seq<SExprView>, n: int, k: int)
    requires
        -1 <= k < n <= items.len() || (k == -1 && n == 0),
        wrapper(items) is None || k != 1,
        forall|j: int|
            k < j < n && !(j == 1 && wrapper(items) is Some) ==> last_wrapper(#[trigger] items[j])
                is None,
        wrapper(items) is Some && k < 1 ==> last_wrapper(items[1]->List_0[1]) is None,
        k >= 0 ==> last_wrapper(items[k]) is Some,
    ensures
        last_wrapper_before(items, n) == if k >= 0 {
            last_wrapper(items[k])
        } else {
            None
        },
    decreases n,
{
    if n > 0 && n - 1 > k {
        assert(!(n - 1 == 1 && wrapper(items) is Some) ==> last_wrapper(items[n - 1]) is None);
        lemma_last_before(items, n - 1, k);
    }
}

/// A line is shown as its expressions without their wrappers, between single spaces, and belongs to
/// the transaction of the last of them that belongs to one. A line that holds no expression, or
/// that cannot be read, is shown as it is and belongs to none.
pub proof fn a_line_is_shown_unwrapped(line: Seq<char>)
    ensures
        match parsed(line) {
            Ok(es) => if es.len() == 0 {
                unwrapped_text(line) == (line, None::<Seq<char>>)
            } else {
                unwrapped_text(line).0 == joined(es.map_values(|e: SExprView| unwrapped(e)), 0)
            },
            Err(_) => unwrapped_text(line) == (line, None::<Seq<char>>),
        },
{
    match parsed(line) {
        Ok(es) => {
            assert(unwrapped_all(es) =~= es.map_values(|e: SExprView| unwrapped(e)));
        },
        Err(_) => {},
    }
}

/// Of several expressions the last that belongs to a transaction tells which.
pub proof fn the_last_expression_counts(es: Seq<SExprView>, n: int, k: int)
    requires
        -1 <= k < n <= es.len() || (k == -1 && n == 0),
        forall|j: int| k < j < n ==> last_wrapper(#[trigger] es[j]) is None,
        k >= 0 ==> last_wrapper(es[k]) is Some,
    ensures
        last_found(es, n) == if k >= 0 {
            last_wrapper(es[k])
        } else {
            None
        },
    decreases n,
{
    if n > 0 && n - 1 > k {
        assert(last_wrapper(es[n - 1]) is None);
        the_last_expression_counts(es, n - 1, k);
    }
}

/// The bytes that a transaction's locations start with are those of `(txid location)` up to the
/// location, for that identifier and for no other.
pub proof fn locations_start_with_their_transaction(id: Seq<char>, first: Seq<u8>, location: ExprTree)
    requires
        1 <= encode_utf8(id).len() < 64,
        1 <= first.len() < 64,
        encodable(location),
    ensures
        ({
            let pair = ExprTree::List(seq![ExprTree::Symbol(first), location]);
            &&& first == encode_utf8(id) <==> loc_prefix(id).is_prefix_of(encode(pair))
            &&& first == encode_utf8(id) ==> encode(pair) == loc_prefix(id) + encode(location)
        }),
{
    let name = ExprTree::Symbol(first);
    let items = seq![name, location];
    let pair = ExprTree::List(items);
    assert(items.drop_first() =~= seq![location]);
    assert(seq![location].drop_first() =~= Seq::<ExprTree>::empty());
    reveal_with_fuel(encode_all, 3);
    assert(encode_all(items) =~= encode(name) + encode(location));
    let path = encode(pair);
    assert(path =~= seq![2u8] + encode(name) + encode(location));
    let n = encode_utf8(id).len() as int;
    let prefix = loc_prefix(id);
    if first == encode_utf8(id) {
        assert(path =~= prefix + encode(location));
        assert(path.subrange(0, prefix.len() as int) =~= prefix);
    }
    if prefix.is_prefix_of(path) {
        let head = path.subrange(0, prefix.len() as int);
        assert(head == prefix);
        assert(head[1] == path[1]);
        assert(prefix[1] == 192 + n);
        assert(path[1] == 192 + first.len());
        assert(first =~= path.subrange(2, 2 + n));
        assert(encode_utf8(id) =~= prefix.subrange(2, 2 + n));
        assert(path.subrange(2, 2 + n) =~= head.subrange(2, 2 + n));
    }
}

/// A generated suffix writes its number in base 36, the lowest digit first, with the letters before
/// the digits.
pub proof fn suffixes_write_a_number(n: int, k: nat, i: nat)
    requires
        0 <= n,
        i < k,
    ensures
        suffix_text(n, k).len() == k,
        suffix_text(n, k)[i as int] == "abcdefghijklmnopqrstuvwxyz0123456789"@[(n / pow(36, i))
            % 36],
    decreases k,
{
    lemma_suffix_len(n, k);
    reveal(pow);
    if i == 0 {
        assert(pow(36, 0) == 1);
        assert(n / 1 == n);
        lemma_suffix_char(n % 36);
    } else {
        suffixes_write_a_number(n / 36, (k - 1) as nat, (i - 1) as nat);
        lemma_suffix_len(n / 36, (k - 1) as nat);
        vstd::arithmetic::power::lemma_pow_positive(36, (i - 1) as nat);
        vstd::arithmetic::div_mod::lemma_div_denominator(n, 36, pow(36, (i - 1) as nat));
        assert(pow(36, i) == 36 * pow(36, (i - 1) as nat));
    }
}

proof fn lemma_suffix_len(n: int, k: nat)
    ensures
        suffix_text(n, k).len() == k,
    decreases k,
{
    if k > 0 {
        lemma_suffix_len(n / 36, (k - 1) as nat);
    }
}

proof fn lemma_suffix_char(d: int)
    requires
        0 <= d < 36,
    ensures
        crate::wrap::suffix_char(d) == "abcdefghijklmnopqrstuvwxyz0123456789"@[d],
{
    reveal_strlit("abcdefghijklmnopqrstuvwxyz0123456789");
}

} // verus!
