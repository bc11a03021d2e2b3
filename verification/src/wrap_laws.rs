//! What parsing, printing, wrapping and unwrapping keep.
use vstd::prelude::*;
use vstd::utf8::{
    decode_utf8_encode_utf8, encode_utf8, encode_utf8_decode_utf8, encode_utf8_valid_utf8,
    is_char_boundary, is_char_boundary_iff_not_is_continuation_byte,
    is_char_boundary_start_end_of_seq, length_of_first_scalar, pop_first_scalar, valid_utf8,
    valid_utf8_split,
};

use crate::text::{ascii_bytes, lemma_ascii_bytes, lemma_encode_concat, readable_text};
use crate::transaction::txid_form;
use crate::wrap::{
    atom_end, bare_item, ends_atom, exec_form, is_ws, joined, last_found, last_wrapper,
    last_wrapper_before, parse_at, parse_from, parse_items, parsed, rewritten, rewritten_from, string_end,
    text_of, unwrapped, unwrapped_all, unwrapped_from, unwrapped_text, wrap_here, wrapped,
    wrapped_items, wrapper, ws_end, SExprView,
};

verus! {

/// Taking the wrappers off gives back what was wrapped, whatever it is.
pub proof fn unwrap_undoes_wrap(e: SExprView, ns: Seq<char>)
    requires
        txid_form(ns),
    ensures
        unwrapped(wrapped(e, ns)) == e,
    decreases e,
{
    if let SExprView::List(items) = e {
        let w = wrap_here(wrapped_items(items, ns), ns);
        lemma_bare_of_wrapped(items, ns);
        assert forall|k: int| 0 <= k < items.len() implies unwrapped(#[trigger] bare_item(w, k))
            == items[k] by {
            unwrap_undoes_wrap(items[k], ns);
        }
        lemma_unwrapped_from(w, items, 0);
        assert(items.skip(0) =~= items);
    }
}

/// Behind their wrappers the items are the wrapped items.
proof fn lemma_bare_of_wrapped(items: Seq<SExprView>, ns: Seq<char>)
    requires
        txid_form(ns),
    ensures
        ({
            let w = wrap_here(wrapped_items(items, ns), ns);
            &&& w.len() == items.len()
            &&& wrapper(w) == if exec_form(items) {
                Some(ns)
            } else {
                None
            }
            &&& forall|k: int|
                0 <= k < items.len() ==> #[trigger] bare_item(w, k) == wrapped(items[k], ns)
        }),
{
    let v = wrapped_items(items, ns);
    let w = wrap_here(v, ns);
    if items.len() == 4 {
        assert(v[0] == wrapped(items[0], ns));
        assert(exec_form(v) == exec_form(items));
    }
    if exec_form(v) {
        let loc = seq![SExprView::Atom(ns), v[1]];
        assert(w[1] == SExprView::List(loc));
        assert(w[0] == v[0]);
        assert(loc[0] == SExprView::Atom(ns) && loc[1] == v[1]);
    }
    assert forall|k: int| 0 <= k < items.len() implies #[trigger] bare_item(w, k) == wrapped(
        items[k],
        ns,
    ) by {
        assert(v[k] == wrapped(items[k], ns));
    }
}

proof fn lemma_unwrapped_from(w: Seq<SExprView>, items: Seq<SExprView>, k: int)
    requires
        0 <= k <= items.len(),
        w.len() == items.len(),
        forall|j: int| 0 <= j < items.len() ==> unwrapped(#[trigger] bare_item(w, j)) == items[j],
    ensures
        unwrapped_from(w, k) == items.skip(k),
    decreases items.len() - k,
{
    if k < items.len() {
        lemma_unwrapped_from(w, items, k + 1);
        assert(seq![items[k]] + items.skip(k + 1) =~= items.skip(k));
        assert(unwrapped(bare_item(w, k)) == items[k]);
    } else {
        assert(items.skip(k) =~= seq![]);
    }
}

/// Whether an `(exec L P T)` stands anywhere in an expression.
pub open spec fn has_exec(e: SExprView) -> bool
    decreases e,
{
    match e {
        SExprView::Atom(_) => false,
        SExprView::List(items) => exec_form(items) || exists|k: int|
            0 <= k < items.len() && has_exec(#[trigger] items[k]),
    }
}

/// A wrapped expression is attributed to its namespace if it holds an `(exec L P T)`, and to none
/// otherwise.
pub proof fn wrapped_is_attributed(e: SExprView, ns: Seq<char>)
    requires
        txid_form(ns),
    ensures
        last_wrapper(wrapped(e, ns)) == if has_exec(e) {
            Some(ns)
        } else {
            None
        },
    decreases e,
{
    if let SExprView::List(items) = e {
        let w = wrap_here(wrapped_items(items, ns), ns);
        lemma_bare_of_wrapped(items, ns);
        assert forall|k: int| 0 <= k < items.len() implies last_wrapper(#[trigger] bare_item(w, k))
            == if has_exec(items[k]) {
            Some(ns)
        } else {
            None
        } by {
            wrapped_is_attributed(items[k], ns);
        }
        lemma_last_before(w, items, ns, items.len() as int);
        if exists|k: int| 0 <= k < items.len() && has_exec(#[trigger] items[k]) {
            let k = choose|k: int| 0 <= k < items.len() && has_exec(#[trigger] items[k]);
            assert(has_exec(items[k]));
        }
    }
}

proof fn lemma_last_before(w: Seq<SExprView>, items: Seq<SExprView>, ns: Seq<char>, n: int)
    requires
        0 <= n <= items.len(),
        w.len() == items.len(),
        forall|k: int|
            0 <= k < items.len() ==> last_wrapper(#[trigger] bare_item(w, k)) == if has_exec(
                items[k],
            ) {
                Some(ns)
            } else {
                None
            },
    ensures
        last_wrapper_before(w, n) == if exists|k: int| 0 <= k < n && has_exec(#[trigger] items[k]) {
            Some(ns)
        } else {
            None
        },
    decreases n,
{
    if n > 0 {
        lemma_last_before(w, items, ns, n - 1);
        assert(last_wrapper(bare_item(w, n - 1)) == if has_exec(items[n - 1]) {
            Some(ns)
        } else {
            None
        });
        if has_exec(items[n - 1]) {
            assert(0 <= n - 1 < n && has_exec(items[n - 1]));
        }
    }
}

/// Whether bytes are an atom that reads back as itself: a plain one without brackets and white
/// space, or a string with its closing quote at the end.
pub open spec fn readable_atom(b: Seq<u8>) -> bool {
    &&& b.len() > 0
    &&& if b[0] == 34 {
        string_end(b, 1) == Ok::<int, Seq<char>>(b.len() as int)
    } else {
        forall|i: int| 0 <= i < b.len() ==> !ends_atom(#[trigger] b[i])
    }
}

/// Whether every atom of an expression reads back as itself.
pub open spec fn readable(e: SExprView) -> bool
    decreases e,
{
    match e {
        SExprView::Atom(a) => readable_atom(encode_utf8(a)),
        SExprView::List(items) => all_readable(items),
    }
}

pub open spec fn all_readable(items: Seq<SExprView>) -> bool
    decreases items,
{
    forall|i: int| 0 <= i < items.len() ==> readable(#[trigger] items[i])
}

pub open spec fn bytes_of(e: SExprView) -> Seq<u8> {
    encode_utf8(text_of(e))
}

/// Whether some bytes stand at a position.
pub open spec fn stands_at(s: Seq<u8>, off: int, b: Seq<u8>) -> bool {
    0 <= off && off + b.len() <= s.len() && s.subrange(off, off + b.len()) == b
}

proof fn lemma_stands(s: Seq<u8>, off: int, a: Seq<u8>, b: Seq<u8>)
    requires
        stands_at(s, off, a + b),
    ensures
        stands_at(s, off, a),
        stands_at(s, off + a.len(), b),
{
    let ab = a + b;
    assert forall|i: int| 0 <= i < ab.len() implies s[off + i] == ab[i] by {
        assert(s.subrange(off, off + ab.len())[i] == ab[i]);
    }
    assert(s.subrange(off, off + a.len()) =~= a);
    assert(s.subrange(off + a.len(), off + a.len() + b.len()) =~= b) by {
        assert forall|i: int| 0 <= i < b.len() implies s[off + a.len() + i] == b[i] by {
            assert(s[off + (a.len() + i)] == ab[a.len() + i]);
        }
    }
}

proof fn lemma_marks()
    ensures
        encode_utf8("("@) == seq![40u8],
        encode_utf8(")"@) == seq![41u8],
        encode_utf8(" "@) == seq![32u8],
        encode_utf8("\n"@) == seq![10u8],
{
    reveal_strlit("(");
    reveal_strlit(")");
    reveal_strlit(" ");
    reveal_strlit("\n");
    lemma_ascii_bytes("("@);
    lemma_ascii_bytes(")"@);
    lemma_ascii_bytes(" "@);
    lemma_ascii_bytes("\n"@);
    assert(ascii_bytes("("@) =~= seq![40u8]);
    assert(ascii_bytes(")"@) =~= seq![41u8]);
    assert(ascii_bytes(" "@) =~= seq![32u8]);
    assert(ascii_bytes("\n"@) =~= seq![10u8]);
}

proof fn lemma_list_bytes(items: Seq<SExprView>)
    ensures
        bytes_of(SExprView::List(items)) == seq![40u8] + (encode_utf8(joined(items, 0)) + seq![
            41u8,
        ]),
{
    lemma_marks();
    let j = joined(items, 0);
    lemma_encode_concat("("@ + j, ")"@);
    lemma_encode_concat("("@, j);
    assert(bytes_of(SExprView::List(items)) =~= seq![40u8] + (encode_utf8(j) + seq![41u8]));
}

proof fn lemma_joined_bytes(items: Seq<SExprView>, k: int)
    requires
        0 <= k < items.len(),
    ensures
        encode_utf8(joined(items, k)) == (if k == 0 {
            Seq::<u8>::empty()
        } else {
            seq![32u8]
        }) + (bytes_of(items[k]) + encode_utf8(joined(items, k + 1))),
{
    lemma_marks();
    let t = text_of(items[k]);
    let rest = joined(items, k + 1);
    if k == 0 {
        lemma_encode_concat(t, rest);
        assert(encode_utf8(joined(items, k)) =~= Seq::<u8>::empty() + (bytes_of(items[k])
            + encode_utf8(rest)));
    } else {
        lemma_encode_concat(" "@ + t, rest);
        lemma_encode_concat(" "@, t);
        assert(encode_utf8(joined(items, k)) =~= seq![32u8] + (bytes_of(items[k]) + encode_utf8(
            rest,
        )));
    }
}

/// The text of a readable expression starts with a byte that is neither white space nor a closing
/// bracket.
proof fn lemma_first_byte(e: SExprView)
    requires
        readable(e),
    ensures
        bytes_of(e).len() > 0,
        !is_ws(bytes_of(e)[0]),
        bytes_of(e)[0] != 41,
{
    match e {
        SExprView::Atom(a) => {
            let b = encode_utf8(a);
            if b[0] != 34 {
                assert(!ends_atom(b[0]));
            }
        },
        SExprView::List(items) => {
            lemma_list_bytes(items);
        },
    }
}

proof fn lemma_string_moves(b: Seq<u8>, i: int, s: Seq<u8>, off: int)
    requires
        stands_at(s, off, b),
        0 <= i,
        string_end(b, i) is Ok,
    ensures
        string_end(s, off + i) == Ok::<int, Seq<char>>(off + string_end(b, i)->Ok_0),
    decreases b.len() - i,
{
    assert(s[off + i] == s.subrange(off, off + b.len())[i]);
    if b[i] == 34 {
    } else if b[i] == 92 {
        lemma_string_moves(b, i + 2, s, off);
    } else {
        lemma_string_moves(b, i + 1, s, off);
    }
}

proof fn lemma_atom_moves(b: Seq<u8>, i: int, s: Seq<u8>, off: int)
    requires
        stands_at(s, off, b),
        0 <= i <= b.len(),
        forall|k: int| 0 <= k < b.len() ==> !ends_atom(#[trigger] b[k]),
        off + b.len() < s.len() ==> ends_atom(s[off + b.len()]),
    ensures
        atom_end(s, off + i) == off + b.len(),
    decreases b.len() - i,
{
    if i < b.len() {
        assert(s[off + i] == s.subrange(off, off + b.len())[i]);
        assert(!ends_atom(b[i]));
        lemma_atom_moves(b, i + 1, s, off);
    }
}

/// Reading a printed expression gives it back, whatever follows, as long as what follows does not
/// run on into it.
pub proof fn read_printed(s: Seq<u8>, off: int, e: SExprView)
    requires
        readable(e),
        stands_at(s, off, bytes_of(e)),
        off + bytes_of(e).len() < s.len() ==> ends_atom(s[off + bytes_of(e).len()]),
    ensures
        parse_at(s, off) == Ok::<(SExprView, int), Seq<char>>((e, off + bytes_of(e).len())),
    decreases e, 0int,
{
    let b = bytes_of(e);
    lemma_first_byte(e);
    assert(s[off] == s.subrange(off, off + b.len())[0]);
    assert(ws_end(s, off) == off);
    match e {
        SExprView::Atom(a) => {
            encode_utf8_valid_utf8(a);
            encode_utf8_decode_utf8(a);
            if b[0] == 34 {
                lemma_string_moves(b, 1, s, off);
            } else {
                assert(!ends_atom(b[0]));
                lemma_atom_moves(b, 0, s, off);
            }
        },
        SExprView::List(items) => {
            lemma_list_bytes(items);
            let j = encode_utf8(joined(items, 0));
            lemma_stands(s, off, seq![40u8], j + seq![41u8]);
            lemma_stands(s, off + 1, j, seq![41u8]);
            assert(s[off + 1 + j.len()] == s.subrange(
                off + 1 + j.len(),
                off + 1 + j.len() + 1,
            )[0]);
            read_printed_items(s, off + 1, items, 0);
            assert(items.skip(0) =~= items);
        },
    }
}

proof fn read_printed_items(s: Seq<u8>, at: int, items: Seq<SExprView>, k: int)
    requires
        all_readable(items),
        0 <= k <= items.len(),
        stands_at(s, at, encode_utf8(joined(items, k))),
        at + encode_utf8(joined(items, k)).len() < s.len(),
        s[at + encode_utf8(joined(items, k)).len()] == 41,
    ensures
        parse_items(s, at) == Ok::<(Seq<SExprView>, int), Seq<char>>(
            (items.skip(k), at + encode_utf8(joined(items, k)).len() + 1),
        ),
    decreases items, items.len() - k,
{
    let j = encode_utf8(joined(items, k));
    if k == items.len() {
        assert(j =~= seq![]);
        assert(items.skip(k) =~= seq![]);
        assert(ws_end(s, at) == at);
    } else {
        let e = items[k];
        assert(readable(e));
        let space = if k == 0 {
            Seq::<u8>::empty()
        } else {
            seq![32u8]
        };
        let rest = encode_utf8(joined(items, k + 1));
        lemma_joined_bytes(items, k);
        lemma_stands(s, at, space, bytes_of(e) + rest);
        let start = at + space.len();
        lemma_stands(s, start, bytes_of(e), rest);
        let mid = start + bytes_of(e).len();
        lemma_first_byte(e);
        assert(s[start] == s.subrange(start, start + bytes_of(e).len())[0]);
        if k > 0 {
            assert(s[at] == s.subrange(at, at + 1)[0]);
            assert(ws_end(s, at + 1) == at + 1);
        }
        assert(ws_end(s, at) == start);
        // What follows is a space or the closing bracket.
        if k + 1 < items.len() {
            lemma_joined_bytes(items, k + 1);
            assert(rest[0] == 32);
            assert(s[mid] == s.subrange(mid, mid + rest.len())[0]);
        } else {
            assert(rest =~= seq![]);
        }
        read_printed(s, start, e);
        read_printed_items(s, mid, items, k + 1);
        assert(seq![e] + items.skip(k + 1) =~= items.skip(k));
    }
}

/// Parsing a printed expression gives exactly that expression back.
pub proof fn parse_undoes_print(e: SExprView)
    requires
        readable(e),
    ensures
        parsed(text_of(e)) == Ok::<Seq<SExprView>, Seq<char>>(seq![e]),
{
    let s = bytes_of(e);
    assert(s.subrange(0, s.len() as int) =~= s);
    lemma_first_byte(e);
    read_printed(s, 0, e);
    assert(ws_end(s, 0) == 0);
    assert(parse_from(s, s.len() as int) == Ok::<Seq<SExprView>, Seq<char>>(seq![]));
    assert(seq![e] + Seq::<SExprView>::empty() =~= seq![e]);
}

/// A namespace reads back as an atom.
proof fn lemma_txid_readable(ns: Seq<char>)
    requires
        txid_form(ns),
    ensures
        readable(SExprView::Atom(ns)),
{
    let b = encode_utf8(ns);
    let u = crate::transaction::underscore_from(b, 2)->0;
    lemma_underscore_at(b, 2);
    let count = b.subrange(2, u);
    let suffix = b.skip(u + 1);
    assert forall|i: int| 0 <= i < b.len() implies !ends_atom(#[trigger] b[i]) by {
        if 2 <= i < u {
            assert(crate::text::is_digit(count[i - 2]));
        } else if i > u {
            assert(crate::transaction::is_suffix_byte(suffix[i - u - 1]));
        }
    }
}

proof fn lemma_underscore_at(b: Seq<u8>, i: int)
    requires
        0 <= i,
    ensures
        crate::transaction::underscore_from(b, i) matches Some(u) ==> i <= u < b.len() && b[u]
            == 95,
    decreases b.len() - i,
{
    if i < b.len() && b[i] != 95 {
        lemma_underscore_at(b, i + 1);
    }
}

/// Wrapping keeps expressions readable.
pub proof fn wrapped_is_readable(e: SExprView, ns: Seq<char>)
    requires
        readable(e),
        txid_form(ns),
    ensures
        readable(wrapped(e, ns)),
    decreases e,
{
    if let SExprView::List(items) = e {
        let v = wrapped_items(items, ns);
        let w = wrap_here(v, ns);
        lemma_txid_readable(ns);
        assert forall|k: int| 0 <= k < items.len() implies readable(#[trigger] v[k]) by {
            assert(readable(items[k]));
            wrapped_is_readable(items[k], ns);
        }
        if exec_form(v) {
            let loc = seq![SExprView::Atom(ns), v[1]];
            assert(readable(v[1]));
            assert forall|k: int| 0 <= k < loc.len() implies readable(#[trigger] loc[k]) by {}
            assert(readable(SExprView::List(loc)));
        }
        assert forall|k: int| 0 <= k < w.len() implies readable(#[trigger] w[k]) by {
            assert(readable(v[k]));
        }
    }
}

/// What was wrapped and printed is unwrapped to the text of the expression that was wrapped, and
/// attributed to the namespace if it holds an `(exec L P T)`.
pub proof fn unwrap_text_undoes_wrap(e: SExprView, ns: Seq<char>)
    requires
        readable(e),
        txid_form(ns),
    ensures
        unwrapped_text(text_of(wrapped(e, ns))) == (text_of(e), if has_exec(e) {
            Some(ns)
        } else {
            None
        }),
{
    let w = wrapped(e, ns);
    wrapped_is_readable(e, ns);
    parse_undoes_print(w);
    unwrap_undoes_wrap(e, ns);
    wrapped_is_attributed(e, ns);
    let es = seq![w];
    assert(es[0] == w);
    assert(last_found(es, 0) is None);
    assert(last_found(es, 1) == last_wrapper(w));
    assert(unwrapped_all(es) =~= seq![e]);
    let one = seq![e];
    assert(one[0] == e);
    assert(joined(one, 1) =~= seq![]);
    assert(joined(one, 0) =~= text_of(e));
}

/// A rewritten transaction parses as its wrapped expressions, in order.
pub proof fn rewritten_parses_as_wrapped(es: Seq<SExprView>, ns: Seq<char>)
    requires
        all_readable(es),
        txid_form(ns),
    ensures
        parsed(rewritten_from(es, ns, 0)) == Ok::<Seq<SExprView>, Seq<char>>(
            es.map_values(|e: SExprView| wrapped(e, ns)),
        ),
{
    let s = encode_utf8(rewritten_from(es, ns, 0));
    assert(s.subrange(0, s.len() as int) =~= s);
    let ws = es.map_values(|e: SExprView| wrapped(e, ns));
    lemma_rewritten(es, ns, ws, s, 0, 0);
    assert(ws.skip(0) =~= ws);
    lemma_parse_from_ws(s, 0);
}

proof fn lemma_parse_from_ws(s: Seq<u8>, at: int)
    requires
        0 <= at,
    ensures
        at < s.len() && s[at] == 10 ==> parse_from(s, at) == parse_from(s, at + 1),
{
    if at < s.len() && s[at] == 10 {
        assert(ws_end(s, at) == ws_end(s, at + 1));
        lemma_ws_ge(s, at + 1);
        lemma_parse_moves(s, ws_end(s, at));
    }
}

proof fn lemma_ws_ge(s: Seq<u8>, i: int)
    requires
        0 <= i,
    ensures
        ws_end(s, i) >= i,
    decreases s.len() - i,
{
    if i < s.len() && is_ws(s[i]) {
        lemma_ws_ge(s, i + 1);
    }
}

/// An expression that is read ends behind its start.
proof fn lemma_parse_moves(s: Seq<u8>, i: int)
    requires
        0 <= i,
    ensures
        parse_at(s, i) matches Ok((e, end)) ==> i < end,
    decreases s.len() - i, 0int,
{
    lemma_ws_ge(s, i);
    let k = ws_end(s, i);
    if k < s.len() {
        if s[k] == 40 {
            lemma_items_move(s, k + 1);
        } else if s[k] == 34 {
            lemma_string_moves_on(s, k + 1);
        } else if s[k] != 41 {
            lemma_ws_stop(s, i);
            lemma_atom_moves_on(s, k + 1);
        }
    }
}

proof fn lemma_items_move(s: Seq<u8>, i: int)
    requires
        0 <= i,
    ensures
        parse_items(s, i) matches Ok((items, end)) ==> i < end,
    decreases s.len() - i, 1int,
{
    lemma_ws_ge(s, i);
    let k = ws_end(s, i);
    if k < s.len() && s[k] != 41 {
        if let Ok((e, mid)) = parse_at(s, k) {
            if i < mid <= s.len() {
                lemma_items_move(s, mid);
            }
        }
    }
}

proof fn lemma_string_moves_on(s: Seq<u8>, i: int)
    requires
        0 <= i,
    ensures
        string_end(s, i) matches Ok(end) ==> i < end,
    decreases s.len() - i,
{
    if i < s.len() && s[i] != 34 {
        if s[i] == 92 {
            if i + 1 < s.len() {
                lemma_string_moves_on(s, i + 2);
            }
        } else {
            lemma_string_moves_on(s, i + 1);
        }
    }
}

proof fn lemma_atom_moves_on(s: Seq<u8>, i: int)
    requires
        0 <= i,
    ensures
        atom_end(s, i) >= i,
    decreases s.len() - i,
{
    if i < s.len() && !ends_atom(s[i]) {
        lemma_atom_moves_on(s, i + 1);
    }
}

proof fn lemma_ws_stop(s: Seq<u8>, i: int)
    requires
        0 <= i,
    ensures
        ws_end(s, i) < s.len() ==> !is_ws(s[ws_end(s, i)]),
    decreases s.len() - i,
{
    if i < s.len() && is_ws(s[i]) {
        lemma_ws_stop(s, i + 1);
    }
}

proof fn lemma_rewritten(
    es: Seq<SExprView>,
    ns: Seq<char>,
    ws: Seq<SExprView>,
    s: Seq<u8>,
    at: int,
    k: int,
)
    requires
        all_readable(es),
        txid_form(ns),
        ws == es.map_values(|e: SExprView| wrapped(e, ns)),
        0 <= k <= es.len(),
        stands_at(s, at, encode_utf8(rewritten_from(es, ns, k))),
        at + encode_utf8(rewritten_from(es, ns, k)).len() == s.len(),
    ensures
        parse_from(s, at) == Ok::<Seq<SExprView>, Seq<char>>(ws.skip(k)),
    decreases es.len() - k,
{
    if k == es.len() {
        assert(encode_utf8(rewritten_from(es, ns, k)) =~= seq![]);
        assert(ws.skip(k) =~= seq![]);
    } else {
        let w = wrapped(es[k], ns);
        assert(readable(es[k]));
        wrapped_is_readable(es[k], ns);
        let rest = rewritten_from(es, ns, k + 1);
        lemma_marks();
        lemma_encode_concat(text_of(w) + "\n"@, rest);
        lemma_encode_concat(text_of(w), "\n"@);
        let tail = seq![10u8] + encode_utf8(rest);
        assert(encode_utf8(rewritten_from(es, ns, k)) =~= bytes_of(w) + tail);
        lemma_stands(s, at, bytes_of(w), tail);
        let mid = at + bytes_of(w).len();
        lemma_stands(s, mid, seq![10u8], encode_utf8(rest));
        assert(s[mid] == s.subrange(mid, mid + 1)[0]);
        lemma_first_byte(w);
        assert(s[at] == s.subrange(at, at + bytes_of(w).len())[0]);
        assert(ws_end(s, at) == at);
        read_printed(s, at, w);
        lemma_rewritten(es, ns, ws, s, mid + 1, k + 1);
        lemma_parse_from_ws(s, mid);
        assert(seq![w] + ws.skip(k + 1) =~= ws.skip(k));
    }
}

/// Whether a position lies between two characters: at an end, or beside an ASCII byte.
pub open spec fn between_chars(b: Seq<u8>, i: int) -> bool {
    0 <= i <= b.len() && (i == 0 || i == b.len() || b[i] < 128 || b[i - 1] < 128)
}

proof fn lemma_after_ascii(b: Seq<u8>, i: int)
    requires
        valid_utf8(b),
        0 < i < b.len(),
        b[i - 1] < 128,
    ensures
        is_char_boundary(b, i),
    decreases b.len(),
{
    let n = length_of_first_scalar(b);
    let rest = pop_first_scalar(b);
    if i - 1 < n {
        assert(i == 1 && n == 1);
        assert(is_char_boundary(rest, 0));
    } else {
        lemma_after_ascii(rest, i - n);
    }
}

proof fn lemma_boundary(b: Seq<u8>, i: int)
    requires
        valid_utf8(b),
        between_chars(b, i),
    ensures
        is_char_boundary(b, i),
{
    is_char_boundary_start_end_of_seq(b);
    if 0 < i < b.len() {
        if b[i] < 128 {
            is_char_boundary_iff_not_is_continuation_byte(b, i);
        } else {
            lemma_after_ascii(b, i);
        }
    }
}

/// What stands between two such positions is the encoding of a text.
proof fn lemma_slice_valid(b: Seq<u8>, i: int, j: int)
    requires
        valid_utf8(b),
        between_chars(b, i),
        between_chars(b, j),
        i <= j,
    ensures
        valid_utf8(b.subrange(i, j)),
        encode_utf8(readable_text(b.subrange(i, j))) == b.subrange(i, j),
{
    lemma_boundary(b, j);
    valid_utf8_split(b, j);
    let front = b.subrange(0, j);
    assert(between_chars(front, i));
    lemma_boundary(front, i);
    valid_utf8_split(front, i);
    assert(front.subrange(i, front.len() as int) =~= b.subrange(i, j));
    decode_utf8_encode_utf8(b.subrange(i, j));
}

proof fn lemma_ws_span(b: Seq<u8>, i: int)
    requires
        0 <= i <= b.len(),
    ensures
        i <= ws_end(b, i) <= b.len(),
        i < ws_end(b, i) ==> is_ws(b[ws_end(b, i) - 1]),
    decreases b.len() - i,
{
    if i < b.len() && is_ws(b[i]) {
        lemma_ws_span(b, i + 1);
    }
}

proof fn lemma_atom_span(b: Seq<u8>, i: int)
    requires
        0 <= i <= b.len(),
    ensures
        i <= atom_end(b, i) <= b.len(),
        forall|k: int| i <= k < atom_end(b, i) ==> !ends_atom(#[trigger] b[k]),
        atom_end(b, i) < b.len() ==> ends_atom(b[atom_end(b, i)]),
    decreases b.len() - i,
{
    if i < b.len() && !ends_atom(b[i]) {
        lemma_atom_span(b, i + 1);
    }
}

/// A string that ends somewhere ends there also when nothing stands around it.
proof fn lemma_string_alone(b: Seq<u8>, i: int, k: int)
    requires
        0 <= i <= k <= b.len(),
        string_end(b, k) is Ok,
    ensures
        ({
            let end = string_end(b, k)->Ok_0;
            &&& k < end <= b.len()
            &&& b[end - 1] == 34
            &&& string_end(b.subrange(i, end), k - i) == Ok::<int, Seq<char>>(end - i)
        }),
    decreases b.len() - k,
{
    if b[k] == 92 {
        lemma_string_alone(b, i, k + 2);
    } else if b[k] != 34 {
        lemma_string_alone(b, i, k + 1);
    }
}

proof fn lemma_parsed_at(b: Seq<u8>, start: int)
    requires
        valid_utf8(b),
        between_chars(b, start),
    ensures
        parse_at(b, start) matches Ok((e, end)) ==> readable(e) && start < end && between_chars(
            b,
            end,
        ),
    decreases b.len() - start, 0int,
{
    lemma_ws_span(b, start);
    lemma_ws_stop(b, start);
    let i = ws_end(b, start);
    assert(between_chars(b, i));
    if i < b.len() {
        if b[i] == 40 {
            lemma_parsed_items(b, i + 1);
        } else if b[i] == 41 {
        } else if b[i] == 34 {
            if string_end(b, i + 1) is Ok {
                lemma_string_alone(b, i, i + 1);
                let end = string_end(b, i + 1)->Ok_0;
                lemma_slice_valid(b, i, end);
                assert(b.subrange(i, end)[0] == 34);
            }
        } else {
            lemma_atom_span(b, i);
            let end = atom_end(b, i);
            lemma_slice_valid(b, i, end);
            let a = b.subrange(i, end);
            assert(a[0] == b[i]);
            assert forall|k: int| 0 <= k < a.len() implies !ends_atom(#[trigger] a[k]) by {
                assert(a[k] == b[i + k]);
            }
        }
    }
}

proof fn lemma_parsed_items(b: Seq<u8>, start: int)
    requires
        valid_utf8(b),
        between_chars(b, start),
    ensures
        parse_items(b, start) matches Ok((items, end)) ==> all_readable(items) && start < end
            && between_chars(b, end),
    decreases b.len() - start, 1int,
{
    lemma_ws_span(b, start);
    let i = ws_end(b, start);
    assert(between_chars(b, i));
    if i < b.len() && b[i] != 41 {
        lemma_parsed_at(b, i);
        if let Ok((e, mid)) = parse_at(b, i) {
            if start < mid <= b.len() {
                lemma_parsed_items(b, mid);
                if let Ok((rest, end)) = parse_items(b, mid) {
                    let items = seq![e] + rest;
                    assert forall|k: int| 0 <= k < items.len() implies readable(
                        #[trigger] items[k],
                    ) by {
                        if k > 0 {
                            assert(items[k] == rest[k - 1]);
                        }
                    }
                }
            }
        }
    }
}

proof fn lemma_parsed_from(b: Seq<u8>, start: int)
    requires
        valid_utf8(b),
        between_chars(b, start),
    ensures
        parse_from(b, start) matches Ok(es) ==> all_readable(es),
    decreases b.len() - start,
{
    lemma_ws_span(b, start);
    let i = ws_end(b, start);
    assert(between_chars(b, i));
    if i < b.len() {
        lemma_parsed_at(b, i);
        if let Ok((e, mid)) = parse_at(b, i) {
            if start < mid <= b.len() {
                lemma_parsed_from(b, mid);
                if let Ok(rest) = parse_from(b, mid) {
                    let es = seq![e] + rest;
                    assert forall|k: int| 0 <= k < es.len() implies readable(#[trigger] es[k]) by {
                        if k > 0 {
                            assert(es[k] == rest[k - 1]);
                        }
                    }
                }
            }
        }
    }
}

/// Whatever a text holds, what is parsed of it reads back as itself.
pub proof fn parsed_is_readable(src: Seq<char>)
    ensures
        parsed(src) matches Ok(es) ==> all_readable(es),
{
    encode_utf8_valid_utf8(src);
    lemma_parsed_from(encode_utf8(src), 0);
}

/// Whether an `(exec L P T)` stands in one of the first `n` expressions.
pub open spec fn any_exec(es: Seq<SExprView>, n: int) -> bool {
    exists|k: int| 0 <= k < n && has_exec(#[trigger] es[k])
}

proof fn lemma_last_found(es: Seq<SExprView>, ws: Seq<SExprView>, ns: Seq<char>, n: int)
    requires
        txid_form(ns),
        ws == es.map_values(|e: SExprView| wrapped(e, ns)),
        0 <= n <= es.len(),
    ensures
        last_found(ws, n) == if any_exec(es, n) {
            Some(ns)
        } else {
            None
        },
    decreases n,
{
    if n > 0 {
        lemma_last_found(es, ws, ns, n - 1);
        wrapped_is_attributed(es[n - 1], ns);
        assert(ws[n - 1] == wrapped(es[n - 1], ns));
        if has_exec(es[n - 1]) {
            assert(any_exec(es, n));
        } else if any_exec(es, n) {
            let k = choose|k: int| 0 <= k < n && has_exec(#[trigger] es[k]);
            assert(any_exec(es, n - 1));
        } else if any_exec(es, n - 1) {
            let k = choose|k: int| 0 <= k < n - 1 && has_exec(#[trigger] es[k]);
            assert(has_exec(es[k]));
        }
    } else {
        assert(!any_exec(es, n));
    }
}

/// Unwrapping a rewritten source gives back its expressions, with single spaces between them, and
/// attributes it to the namespace if an `(exec L P T)` stands in any of them.
pub proof fn unwrap_undoes_rewrite(src: Seq<char>, ns: Seq<char>)
    requires
        txid_form(ns),
    ensures
        parsed(src) matches Ok(es) ==> (rewritten(src, ns) matches Ok(w) && unwrapped_text(w) == (
            joined(es, 0),
            if any_exec(es, es.len() as int) {
                Some(ns)
            } else {
                None
            },
        )),
{
    if let Ok(es) = parsed(src) {
        let ws = es.map_values(|e: SExprView| wrapped(e, ns));
        parsed_is_readable(src);
        rewritten_parses_as_wrapped(es, ns);
        lemma_last_found(es, ws, ns, es.len() as int);
        if es.len() > 0 {
            assert forall|k: int| 0 <= k < es.len() implies unwrapped(#[trigger] ws[k]) == es[k] by {
                unwrap_undoes_wrap(es[k], ns);
            }
            assert(unwrapped_all(ws) =~= es);
        } else {
            assert(joined(es, 0) =~= rewritten_from(es, ns, 0));
        }
    }
}

} // verus!
