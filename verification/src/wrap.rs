//! Transaction namespaces.
//!
//! On the way in, every `(exec L P T)` of a transaction is rewritten to `(exec (<tx-id> L) P T)`,
//! wherever it stands. On the way out, the wrapper is taken off again.
use std::collections::hash_map::{DefaultHasher, RandomState};
use std::hash::{BuildHasher, Hasher};

use vstd::prelude::*;
use vstd::utf8::{encode_utf8};

use crate::expr::{item_byte, tag_byte, Tag};
use crate::text::{concat, dec_text, lossy, readable_text, str_eq, u64_text};
use crate::transaction::{find_txid_fault, txid_form, valid_txid, TxId};

verus! {

/// A symbolic expression as text.
#[derive(Debug, PartialEq)]
pub enum SExpr {
    Atom(String),
    List(Vec<SExpr>),
}

/// The mathematical value of an `SExpr`.
pub ghost enum SExprView {
    Atom(Seq<char>),
    List(Seq<SExprView>),
}

impl SExpr {
    pub open spec fn view(&self) -> SExprView
        decreases self,
    {
        match self {
            SExpr::Atom(a) => SExprView::Atom(a@),
            SExpr::List(items) => SExprView::List(sexprs_view(items@)),
        }
    }
}

pub open spec fn sexprs_view(items: Seq<SExpr>) -> Seq<SExprView>
    decreases items,
{
    Seq::new(
        items.len(),
        |i: int|
            if 0 <= i < items.len() {
                items[i].view()
            } else {
                SExprView::Atom(seq![])
            },
    )
}

fn copy_expr(e: &SExpr) -> (r: SExpr)
    ensures
        r@ == e@,
    decreases e,
{
    match e {
        SExpr::Atom(a) => SExpr::Atom(a.clone()),
        SExpr::List(items) => SExpr::List(copy_exprs(items)),
    }
}

fn copy_exprs(items: &Vec<SExpr>) -> (r: Vec<SExpr>)
    ensures
        sexprs_view(r@) == sexprs_view(items@),
    decreases items,
{
    let mut out: Vec<SExpr> = Vec::new();
    let mut i: usize = 0;
    while i < items.len()
        invariant
            0 <= i <= items@.len(),
            out@.len() == i,
            forall|k: int| 0 <= k < i ==> (#[trigger] out@[k])@ == items@[k]@,
        decreases items@.len() - i,
    {
        out.push(copy_expr(&items[i]));
        i = i + 1;
    }
    assert(sexprs_view(out@) =~= sexprs_view(items@));
    out
}

impl Clone for SExpr {
    fn clone(&self) -> (r: Self)
        ensures
            r@ == self@,
    {
        copy_expr(self)
    }
}

/// The letter of a base-36 digit.
pub open spec fn suffix_char(d: int) -> char {
    if d < 26 {
        (97 + d) as char
    } else {
        (48 + d - 26) as char
    }
}

/// The first `k` base-36 digits of a number, least significant first.
pub open spec fn suffix_text(n: int, k: nat) -> Seq<char>
    decreases k,
{
    if k == 0 {
        seq![]
    } else {
        seq![suffix_char(n % 36)] + suffix_text(n / 36, (k - 1) as nat)
    }
}

/// `tx<count>_<suffix>`
pub open spec fn txid_text(count: u64, n: u64) -> Seq<char> {
    "tx"@ + dec_text(count as nat) + "_"@ + suffix_text(n as int, 8)
}

/// `RandomState::new`: keys that differ from call to call. Nothing is known of them.
#[verifier::external_body]
fn random_keys() -> (r: RandomState) {
    RandomState::new()
}

/// `RandomState::build_hasher`: a hasher with these keys. Nothing is known of it.
#[verifier::external_body]
fn hasher_with(keys: &RandomState) -> (r: DefaultHasher) {
    keys.build_hasher()
}

/// A number that is left to chance: the hash of nothing, under random keys.
pub(crate) fn random_number() -> (r: u64) {
    hasher_with(&random_keys()).finish()
}

proof fn lemma_suffix(n: int, k: nat)
    requires
        n >= 0,
    ensures
        suffix_text(n, k).len() == k,
        forall|i: int|
            0 <= i < k ==> ('a' <= #[trigger] suffix_text(n, k)[i] <= 'z' || '0' <= suffix_text(
                n,
                k,
            )[i] <= '9'),
    decreases k,
{
    if k > 0 {
        lemma_suffix(n / 36, (k - 1) as nat);
        let rest = suffix_text(n / 36, (k - 1) as nat);
        assert forall|i: int| 0 <= i < k implies ('a' <= #[trigger] suffix_text(n, k)[i] <= 'z'
            || '0' <= suffix_text(n, k)[i] <= '9') by {
            if i > 0 {
                assert(suffix_text(n, k)[i] == rest[i - 1]);
            }
        }
    }
}

/// Every generated identifier is a valid one.
pub proof fn generated_ids_are_valid(count: u64, n: u64)
    ensures
        valid_txid(txid_text(count, n)),
{
    let t = txid_text(count, n);
    let d = dec_text(count as nat);
    let s = suffix_text(n as int, 8);
    reveal_strlit("tx");
    reveal_strlit("_");
    crate::text::lemma_dec_text_ascii(count as nat);
    crate::text::lemma_dec_text_len(count as nat);
    lemma_suffix(n as int, 8);
    let dl = d.len() as int;
    assert(t.len() == dl + 11);
    assert forall|i: int| 0 <= i < t.len() implies '\0' <= #[trigger] t[i] <= '\u{7f}' by {
        if 2 <= i < 2 + dl {
            assert(t[i] == d[i - 2]);
        } else if i >= 3 + dl {
            assert(t[i] == s[i - 3 - dl]);
        }
    }
    crate::text::lemma_ascii_bytes(t);
    let b = crate::text::ascii_bytes(t);
    assert(b[0] == 116 && b[1] == 120);
    assert forall|i: int| 2 <= i < 2 + dl implies crate::text::is_digit(#[trigger] b[i]) by {
        assert(t[i] == d[i - 2]);
    }
    assert(b[2 + dl] == 95);
    lemma_underscore(b, 2, 2 + dl);
    let count_part = b.subrange(2, 2 + dl);
    assert forall|i: int| 0 <= i < count_part.len() implies crate::text::is_digit(
        #[trigger] count_part[i],
    ) by {
        assert(count_part[i] == b[i + 2]);
    }
    let suffix = b.skip(3 + dl);
    assert forall|i: int| 0 <= i < suffix.len() implies crate::transaction::is_suffix_byte(
        #[trigger] suffix[i],
    ) by {
        assert(suffix[i] == b[i + 3 + dl]);
        assert(t[i + 3 + dl] == s[i]);
    }
}

proof fn lemma_underscore(b: Seq<u8>, i: int, u: int)
    requires
        0 <= i <= u < b.len(),
        b[u] == 95,
        forall|k: int| i <= k < u ==> #[trigger] b[k] != 95,
    ensures
        crate::transaction::underscore_from(b, i) == Some(u),
    decreases u - i,
{
    if i < u {
        lemma_underscore(b, i + 1, u);
    }
}

/// The identifier of a count and a number.
pub fn make_txid(count: u64, n: u64) -> (r: TxId)
    ensures
        r@ == txid_text(count, n),
{
    let mut out = concat("tx", u64_text(count).as_str());
    out.append("_");
    let ghost head = out@;
    let mut left: u64 = n;
    let mut k: usize = 0;
    assert(head + suffix_text(n as int, 8) =~= out@ + suffix_text(left as int, 8));
    while k < 8
        invariant
            0 <= k <= 8,
            head + suffix_text(n as int, 8) == out@ + suffix_text(left as int, (8 - k) as nat),
        decreases 8 - k,
    {
        let ghost before = out@;
        let d: u8 = (left % 36) as u8;
        let c: char = if d < 26 {
            (97 + d) as char
        } else {
            (48 + (d - 26)) as char
        };
        out.push(c);
        proof {
            let rest = suffix_text((left / 36) as int, (7 - k) as nat);
            assert(before + (seq![c] + rest) =~= out@ + rest);
        }
        left = left / 36;
        k = k + 1;
    }
    assert(out@ + suffix_text(left as int, 0) =~= out@);
    assert(out@ =~= txid_text(count, n));
    proof {
        generated_ids_are_valid(count, n);
    }
    TxId::new(out).unwrap()
}

/// A fresh identifier: the count gives an order, the random suffix keeps identifiers apart.
pub fn gen_txid(count: u64) -> (r: TxId)
    ensures
        exists|n: u64| r@ == #[trigger] txid_text(count, n),
        valid_txid(r@),
{
    let n = random_number();
    proof {
        generated_ids_are_valid(count, n);
    }
    make_txid(count, n)
}

/// Whether a text has the form of a transaction identifier.
pub fn is_txid(s: &str) -> (r: bool)
    ensures
        r == txid_form(s@),
{
    find_txid_fault(s.as_bytes()).is_none()
}

/// The bytes that a wrapped location starts with: a list of two whose first item is the symbol.
pub open spec fn loc_prefix(txid: Seq<char>) -> Seq<u8> {
    seq![tag_byte(Tag::Arity(2)), tag_byte(Tag::SymbolSize(encode_utf8(txid).len() as u8))]
        + encode_utf8(txid)
}

/// The bytes that a wrapped location starts with.
pub fn ns_loc_prefix(txid: &str) -> (r: Vec<u8>)
    requires
        encode_utf8(txid@).len() < 64,
    ensures
        r@ == loc_prefix(txid@),
{
    let b = txid.as_bytes();
    let mut p: Vec<u8> = Vec::new();
    p.push(item_byte(Tag::Arity(2)));
    p.push(item_byte(Tag::SymbolSize(b.len() as u8)));
    p.extend_from_slice(b);
    assert(p@ =~= loc_prefix(txid@));
    p
}

/// White space: ASCII white space alone, so that no letter is split.
pub open spec fn is_ws(b: u8) -> bool {
    9 <= b <= 13 || b == 32
}

/// The first position from `i` on that holds no white space.
pub open spec fn ws_end(b: Seq<u8>, i: int) -> int
    decreases b.len() - i,
{
    if 0 <= i < b.len() && is_ws(b[i]) {
        ws_end(b, i + 1)
    } else {
        i
    }
}

/// The position behind the closing quote of a string whose content goes on at `i`.
pub open spec fn string_end(b: Seq<u8>, i: int) -> Result<int, Seq<char>>
    decreases b.len() - i,
{
    if i < 0 || i >= b.len() {
        Err("unfinished string"@)
    } else if b[i] == 34 {
        Ok(i + 1)
    } else if b[i] == 92 {
        if i + 1 < b.len() {
            string_end(b, i + 2)
        } else {
            Err("unfinished escape sequence"@)
        }
    } else {
        string_end(b, i + 1)
    }
}

pub open spec fn ends_atom(b: u8) -> bool {
    b == 40 || b == 41 || is_ws(b)
}

/// The first position from `i` on that does not belong to a plain atom.
pub open spec fn atom_end(b: Seq<u8>, i: int) -> int
    decreases b.len() - i,
{
    if 0 <= i < b.len() && !ends_atom(b[i]) {
        atom_end(b, i + 1)
    } else {
        i
    }
}

/// The expression at a position and the position behind it, or why there is none.
pub open spec fn parse_at(b: Seq<u8>, start: int) -> Result<(SExprView, int), Seq<char>>
    decreases b.len() - start, 0int,
{
    let i = ws_end(b, start);
    if i < start || i >= b.len() {
        Err("unexpected end of input"@)
    } else if b[i] == 40 {
        match parse_items(b, i + 1) {
            Ok((items, end)) => Ok((SExprView::List(items), end)),
            Err(e) => Err(e),
        }
    } else if b[i] == 41 {
        Err("unexpected ')' at byte "@ + dec_text(i as nat))
    } else if b[i] == 34 {
        match string_end(b, i + 1) {
            Ok(end) => Ok((SExprView::Atom(readable_text(b.subrange(i, end))), end)),
            Err(e) => Err(e),
        }
    } else {
        let end = atom_end(b, i);
        Ok((SExprView::Atom(readable_text(b.subrange(i, end))), end))
    }
}

/// The items of a list whose content goes on at a position, and the position behind its closing
/// bracket.
pub open spec fn parse_items(b: Seq<u8>, start: int) -> Result<(Seq<SExprView>, int), Seq<char>>
    decreases b.len() - start, 1int,
{
    let i = ws_end(b, start);
    if i < start || i >= b.len() {
        Err("unclosed '('"@)
    } else if b[i] == 41 {
        Ok((seq![], i + 1))
    } else {
        match parse_at(b, i) {
            Err(e) => Err(e),
            Ok((e, mid)) => if mid <= start || mid > b.len() {
                Err("unclosed '('"@)
            } else {
                match parse_items(b, mid) {
                    Err(e) => Err(e),
                    Ok((rest, end)) => Ok((seq![e] + rest, end)),
                }
            },
        }
    }
}

/// All expressions from a position on.
pub open spec fn parse_from(b: Seq<u8>, start: int) -> Result<Seq<SExprView>, Seq<char>>
    decreases b.len() - start,
{
    let i = ws_end(b, start);
    if i < start || i >= b.len() {
        Ok(seq![])
    } else {
        match parse_at(b, i) {
            Err(e) => Err(e),
            Ok((e, mid)) => if mid <= start || mid > b.len() {
                Ok(seq![])
            } else {
                match parse_from(b, mid) {
                    Err(e) => Err(e),
                    Ok(rest) => Ok(seq![e] + rest),
                }
            },
        }
    }
}

/// The expressions of a text.
pub open spec fn parsed(s: Seq<char>) -> Result<Seq<SExprView>, Seq<char>> {
    parse_from(encode_utf8(s), 0)
}

pub(crate) proof fn lemma_ws_end(b: Seq<u8>, i: int)
    requires
        0 <= i <= b.len(),
    ensures
        i <= ws_end(b, i) <= b.len(),
        ws_end(b, i) < b.len() ==> !is_ws(b[ws_end(b, i)]),
        ws_end(b, ws_end(b, i)) == ws_end(b, i),
        forall|k: int| i <= k < ws_end(b, i) ==> is_ws(#[trigger] b[k]),
    decreases b.len() - i,
{
    if i < b.len() && is_ws(b[i]) {
        lemma_ws_end(b, i + 1);
    }
}

proof fn lemma_string_end(b: Seq<u8>, i: int)
    requires
        0 <= i <= b.len(),
    ensures
        string_end(b, i) matches Ok(end) ==> i < end <= b.len(),
    decreases b.len() - i,
{
    if i < b.len() {
        if b[i] == 92 {
            if i + 1 < b.len() {
                lemma_string_end(b, i + 2);
            }
        } else if b[i] != 34 {
            lemma_string_end(b, i + 1);
        }
    }
}

proof fn lemma_atom_end(b: Seq<u8>, i: int)
    requires
        0 <= i <= b.len(),
    ensures
        i <= atom_end(b, i) <= b.len(),
        i < b.len() && !ends_atom(b[i]) ==> i < atom_end(b, i),
    decreases b.len() - i,
{
    if i < b.len() && !ends_atom(b[i]) {
        lemma_atom_end(b, i + 1);
    }
}

/// Reading an expression always moves on, and never past the end.
pub(crate) proof fn lemma_progress(b: Seq<u8>, start: int)
    requires
        0 <= start <= b.len(),
    ensures
        parse_at(b, start) matches Ok((e, end)) ==> start < end <= b.len(),
    decreases b.len() - start, 0int,
{
    lemma_ws_end(b, start);
    let i = ws_end(b, start);
    if i < b.len() {
        if b[i] == 40 {
            lemma_items_progress(b, i + 1);
        } else if b[i] == 34 {
            lemma_string_end(b, i + 1);
        } else if b[i] != 41 {
            lemma_atom_end(b, i);
        }
    }
}

proof fn lemma_items_progress(b: Seq<u8>, start: int)
    requires
        0 <= start <= b.len(),
    ensures
        parse_items(b, start) matches Ok((items, end)) ==> start < end <= b.len(),
    decreases b.len() - start, 1int,
{
    lemma_ws_end(b, start);
    let i = ws_end(b, start);
    if i < b.len() && b[i] != 41 {
        lemma_progress(b, i);
        if let Ok((e, mid)) = parse_at(b, i) {
            lemma_items_progress(b, mid);
        }
    }
}

/// Moves past white space.
fn skip_ws(b: &[u8], i: usize) -> (r: usize)
    requires
        i <= b@.len(),
    ensures
        r == ws_end(b@, i as int),
        i <= r <= b@.len(),
{
    let mut k: usize = i;
    while k < b.len() && ((9 <= b[k] && b[k] <= 13) || b[k] == 32)
        invariant
            i <= k <= b@.len(),
            ws_end(b@, i as int) == ws_end(b@, k as int),
        decreases b@.len() - k,
    {
        k = k + 1;
    }
    k
}

fn find_string_end(b: &[u8], i: usize) -> (r: Result<usize, String>)
    requires
        i <= b@.len(),
    ensures
        match r {
            Ok(end) => string_end(b@, i as int) == Ok::<int, Seq<char>>(end as int) && i < end
                <= b@.len(),
            Err(e) => string_end(b@, i as int) == Err::<int, Seq<char>>(e@),
        },
{
    proof {
        lemma_string_end(b@, i as int);
    }
    let mut k: usize = i;
    while k < b.len()
        invariant
            i <= k <= b@.len(),
            string_end(b@, i as int) == string_end(b@, k as int),
            string_end(b@, i as int) matches Ok(end) ==> i < end <= b@.len(),
        decreases b@.len() - k,
    {
        if b[k] == 34 {
            return Ok(k + 1);
        }
        if b[k] == 92 {
            if k < b.len() - 1 {
                k = k + 2;
            } else {
                return Err("unfinished escape sequence".to_owned());
            }
        } else {
            k = k + 1;
        }
    }
    Err("unfinished string".to_owned())
}

fn find_atom_end(b: &[u8], i: usize) -> (r: usize)
    requires
        i <= b@.len(),
    ensures
        r == atom_end(b@, i as int),
        i <= r <= b@.len(),
{
    let mut k: usize = i;
    while k < b.len() && !(b[k] == 40 || b[k] == 41 || (9 <= b[k] && b[k] <= 13) || b[k] == 32)
        invariant
            i <= k <= b@.len(),
            atom_end(b@, i as int) == atom_end(b@, k as int),
        decreases b@.len() - k,
    {
        k = k + 1;
    }
    k
}

/// Reads one expression.
fn parse_one(b: &[u8], start: usize) -> (r: Result<(SExpr, usize), String>)
    requires
        start <= b@.len(),
    ensures
        match r {
            Ok((e, end)) => parse_at(b@, start as int) == Ok::<(SExprView, int), Seq<char>>(
                (e@, end as int),
            ) && start < end <= b@.len(),
            Err(e) => parse_at(b@, start as int) == Err::<(SExprView, int), Seq<char>>(e@),
        },
    decreases b@.len() - start, 0int,
{
    proof {
        lemma_progress(b@, start as int);
    }
    let i = skip_ws(b, start);
    if i >= b.len() {
        return Err("unexpected end of input".to_owned());
    }
    if b[i] == 40 {
        match parse_list(b, i + 1) {
            Ok((items, end)) => Ok((SExpr::List(items), end)),
            Err(e) => Err(e),
        }
    } else if b[i] == 41 {
        Err(concat("unexpected ')' at byte ", u64_text(i as u64).as_str()))
    } else if b[i] == 34 {
        match find_string_end(b, i + 1) {
            Ok(end) => Ok((SExpr::Atom(lossy(vstd::slice::slice_subrange(b, i, end))), end)),
            Err(e) => Err(e),
        }
    } else {
        let end = find_atom_end(b, i);
        Ok((SExpr::Atom(lossy(vstd::slice::slice_subrange(b, i, end))), end))
    }
}

/// Reads the items of a list behind its opening bracket.
fn parse_list(b: &[u8], start: usize) -> (r: Result<(Vec<SExpr>, usize), String>)
    requires
        start <= b@.len(),
    ensures
        match r {
            Ok((items, end)) => parse_items(b@, start as int) == Ok::<
                (Seq<SExprView>, int),
                Seq<char>,
            >((sexprs_view(items@), end as int)) && start < end <= b@.len(),
            Err(e) => parse_items(b@, start as int) == Err::<(Seq<SExprView>, int), Seq<char>>(e@),
        },
    decreases b@.len() - start, 1int,
{
    proof {
        lemma_items_progress(b@, start as int);
    }
    let mut items: Vec<SExpr> = Vec::new();
    let mut at: usize = start;
    proof {
        assert(sexprs_view(items@) =~= seq![]);
        if let Ok((rest, _)) = parse_items(b@, start as int) {
            assert(sexprs_view(items@) + rest =~= rest);
        }
    }
    loop
        invariant
            start <= at <= b@.len(),
            parse_items(b@, start as int) == (match parse_items(b@, at as int) {
                Ok((rest, end)) => Ok((sexprs_view(items@) + rest, end)),
                Err(e) => Err(e),
            }),
            parse_items(b@, start as int) matches Ok((_, end)) ==> start < end <= b@.len(),
        decreases b@.len() - at,
    {
        proof {
            lemma_ws_end(b@, at as int);
        }
        let i = skip_ws(b, at);
        if i >= b.len() {
            return Err("unclosed '('".to_owned());
        }
        if b[i] == 41 {
            assert(sexprs_view(items@) + Seq::<SExprView>::empty() =~= sexprs_view(items@));
            return Ok((items, i + 1));
        }
        proof {
            lemma_progress(b@, i as int);
        }
        let ghost before = items@;
        match parse_one(b, i) {
            Err(e) => return Err(e),
            Ok((e, mid)) => {
                items.push(e);
                proof {
                    assert(sexprs_view(items@) =~= sexprs_view(before) + seq![e@]);
                    if let Ok((rest, _)) = parse_items(b@, mid as int) {
                        assert(sexprs_view(before) + (seq![e@] + rest) =~= sexprs_view(items@)
                            + rest);
                    }
                }
                at = mid;
            },
        }
    }
}

/// The expressions of a text.
pub fn parse_all(src: &str) -> (r: Result<Vec<SExpr>, String>)
    ensures
        match r {
            Ok(es) => parsed(src@) == Ok::<Seq<SExprView>, Seq<char>>(sexprs_view(es@)),
            Err(e) => parsed(src@) == Err::<Seq<SExprView>, Seq<char>>(e@),
        },
{
    let b = src.as_bytes();
    let mut out: Vec<SExpr> = Vec::new();
    let mut at: usize = 0;
    proof {
        assert(sexprs_view(out@) =~= seq![]);
        if let Ok(rest) = parse_from(b@, 0) {
            assert(sexprs_view(out@) + rest =~= rest);
        }
    }
    loop
        invariant
            0 <= at <= b@.len(),
            b@ == encode_utf8(src@),
            parse_from(b@, 0) == (match parse_from(b@, at as int) {
                Ok(rest) => Ok(sexprs_view(out@) + rest),
                Err(e) => Err(e),
            }),
        decreases b@.len() - at,
    {
        proof {
            lemma_ws_end(b@, at as int);
        }
        let i = skip_ws(b, at);
        if i >= b.len() {
            assert(sexprs_view(out@) + Seq::<SExprView>::empty() =~= sexprs_view(out@));
            return Ok(out);
        }
        proof {
            lemma_progress(b@, i as int);
        }
        let ghost before = out@;
        match parse_one(b, i) {
            Err(e) => return Err(e),
            Ok((e, mid)) => {
                out.push(e);
                proof {
                    assert(sexprs_view(out@) =~= sexprs_view(before) + seq![e@]);
                    if let Ok(rest) = parse_from(b@, mid as int) {
                        assert(sexprs_view(before) + (seq![e@] + rest) =~= sexprs_view(out@) + rest);
                    }
                }
                at = mid;
            },
        }
    }
}

/// The text of an expression.
pub open spec fn text_of(e: SExprView) -> Seq<char>
    decreases e, 0int,
{
    match e {
        SExprView::Atom(a) => a,
        SExprView::List(items) => "("@ + joined(items, 0) + ")"@,
    }
}

/// The texts of the items from the `k`-th on, with a space before each but the first.
pub open spec fn joined(items: Seq<SExprView>, k: int) -> Seq<char>
    decreases items, items.len() - k,
{
    if k < 0 || k >= items.len() {
        seq![]
    } else if k == 0 {
        text_of(items[k]) + joined(items, k + 1)
    } else {
        " "@ + text_of(items[k]) + joined(items, k + 1)
    }
}

/// The text of an expression.
pub fn to_text(e: &SExpr) -> (r: String)
    ensures
        r@ == text_of(e@),
    decreases e, 0int,
{
    match e {
        SExpr::Atom(a) => a.clone(),
        SExpr::List(items) => {
            let mut out = concat("(", join_texts(items).as_str());
            out.append(")");
            out
        },
    }
}

/// The texts of expressions, with spaces between them.
fn join_texts(items: &Vec<SExpr>) -> (r: String)
    ensures
        r@ == joined(sexprs_view(items@), 0),
    decreases items, 0int,
{
    let ghost es = sexprs_view(items@);
    let mut out = String::new();
    let mut i: usize = 0;
    assert(out@ + joined(es, 0) =~= joined(es, 0));
    while i < items.len()
        invariant
            0 <= i <= items@.len(),
            es == sexprs_view(items@),
            out@ + joined(es, i as int) == joined(es, 0),
        decreases items@.len() - i,
    {
        let ghost before = out@;
        assert(es[i as int] == items@[i as int]@);
        if i > 0 {
            out.append(" ");
        }
        out.append(to_text(&items[i]).as_str());
        proof {
            let rest = joined(es, i + 1);
            if i > 0 {
                assert(before + (" "@ + text_of(es[i as int]) + rest) =~= out@ + rest);
            } else {
                assert(before + (text_of(es[i as int]) + rest) =~= out@ + rest);
            }
        }
        i = i + 1;
    }
    assert(out@ + joined(es, i as int) =~= out@);
    out
}

/// Whether a list is `(exec L P T)`.
pub open spec fn exec_form(items: Seq<SExprView>) -> bool {
    items.len() == 4 && items[0] == SExprView::Atom("exec"@)
}

/// Whether a list is `(exec L P T)`.
fn is_exec4(items: &Vec<SExpr>) -> (r: bool)
    ensures
        r == exec_form(sexprs_view(items@)),
{
    if items.len() != 4 {
        return false;
    }
    assert(sexprs_view(items@)[0] == items@[0]@);
    match &items[0] {
        SExpr::Atom(a) => str_eq(a.as_str(), "exec"),
        SExpr::List(_) => false,
    }
}

/// An expression with the location of every `(exec L P T)` in it wrapped.
pub open spec fn wrapped(e: SExprView, ns: Seq<char>) -> SExprView
    decreases e,
{
    match e {
        SExprView::Atom(_) => e,
        SExprView::List(items) => SExprView::List(wrap_here(wrapped_items(items, ns), ns)),
    }
}

pub open spec fn wrapped_items(items: Seq<SExprView>, ns: Seq<char>) -> Seq<SExprView>
    decreases items,
{
    Seq::new(
        items.len(),
        |i: int|
            if 0 <= i < items.len() {
                wrapped(items[i], ns)
            } else {
                SExprView::Atom(seq![])
            },
    )
}

pub open spec fn wrap_here(items: Seq<SExprView>, ns: Seq<char>) -> Seq<SExprView> {
    if exec_form(items) {
        items.update(1, SExprView::List(seq![SExprView::Atom(ns), items[1]]))
    } else {
        items
    }
}

fn wrap_copy(e: &SExpr, ns: &str) -> (r: SExpr)
    ensures
        r@ == wrapped(e@, ns@),
    decreases e,
{
    match e {
        SExpr::Atom(a) => SExpr::Atom(a.clone()),
        SExpr::List(items) => {
            let mut out = wrap_copies(items, ns);
            let ghost w = sexprs_view(out@);
            if is_exec4(&out) {
                let loc = out.remove(1);
                let mut pair: Vec<SExpr> = Vec::new();
                pair.push(SExpr::Atom(ns.to_owned()));
                pair.push(loc);
                assert(sexprs_view(pair@) =~= seq![SExprView::Atom(ns@), w[1]]);
                out.insert(1, SExpr::List(pair));
            }
            assert(sexprs_view(out@) =~= wrap_here(w, ns@));
            SExpr::List(out)
        },
    }
}

fn wrap_copies(items: &Vec<SExpr>, ns: &str) -> (r: Vec<SExpr>)
    ensures
        sexprs_view(r@) == wrapped_items(sexprs_view(items@), ns@),
    decreases items,
{
    let mut out: Vec<SExpr> = Vec::new();
    let mut i: usize = 0;
    while i < items.len()
        invariant
            0 <= i <= items@.len(),
            out@.len() == i,
            forall|k: int| 0 <= k < i ==> (#[trigger] out@[k])@ == wrapped(items@[k]@, ns@),
        decreases items@.len() - i,
    {
        out.push(wrap_copy(&items[i], ns));
        i = i + 1;
    }
    assert(sexprs_view(out@) =~= wrapped_items(sexprs_view(items@), ns@));
    out
}

/// Wraps the location of every `(exec L P T)` of an expression: `L` becomes `(<ns> L)`.
pub fn wrap_execs(e: &mut SExpr, ns: &str)
    ensures
        final(e)@ == wrapped(old(e)@, ns@),
{
    let w = wrap_copy(&*e, ns);
    *e = w;
}

/// The identifier that wraps the location of `(exec (<txid> L) P T)`.
pub open spec fn wrapper(items: Seq<SExprView>) -> Option<Seq<char>> {
    if !exec_form(items) {
        None
    } else {
        match items[1] {
            SExprView::List(loc) => if loc.len() == 2 {
                match loc[0] {
                    SExprView::Atom(a) => if txid_form(a) {
                        Some(a)
                    } else {
                        None
                    },
                    _ => None,
                }
            } else {
                None
            },
            _ => None,
        }
    }
}

/// Item `k` of a list, the location without its wrapper.
pub open spec fn bare_item(items: Seq<SExprView>, k: int) -> SExprView {
    match items[k] {
        SExprView::List(loc) => if k == 1 && wrapper(items) is Some {
            loc[1]
        } else {
            items[k]
        },
        _ => items[k],
    }
}

pub proof fn lemma_bare_smaller(items: Seq<SExprView>, k: int)
    requires
        0 <= k < items.len(),
    ensures
        decreases_to!(items => bare_item(items, k)),
{
    assert(decreases_to!(items => items[k]));
    if let SExprView::List(loc) = items[k] {
        assert(decreases_to!(items[k] => loc));
        if k == 1 && wrapper(items) is Some {
            assert(decreases_to!(loc => loc[1]));
        }
    }
}

/// An expression with every wrapper taken off.
pub open spec fn unwrapped(e: SExprView) -> SExprView
    decreases e, 0int,
{
    match e {
        SExprView::Atom(_) => e,
        SExprView::List(items) => SExprView::List(unwrapped_from(items, 0)),
    }
}

pub open spec fn unwrapped_from(items: Seq<SExprView>, k: int) -> Seq<SExprView>
    decreases items, items.len() - k,
{
    if k < 0 || k >= items.len() {
        seq![]
    } else {
        proof {
            lemma_bare_smaller(items, k);
        }
        seq![unwrapped(bare_item(items, k))] + unwrapped_from(items, k + 1)
    }
}

/// The last identifier that wraps something in an expression.
pub open spec fn last_wrapper(e: SExprView) -> Option<Seq<char>>
    decreases e, 0int,
{
    match e {
        SExprView::Atom(_) => None,
        SExprView::List(items) => match last_wrapper_before(items, items.len() as int) {
            Some(t) => Some(t),
            None => wrapper(items),
        },
    }
}

/// The last identifier that wraps something in the first `k` items.
pub open spec fn last_wrapper_before(items: Seq<SExprView>, k: int) -> Option<Seq<char>>
    decreases items, k,
{
    if k <= 0 || k > items.len() {
        None
    } else {
        proof {
            lemma_bare_smaller(items, k - 1);
        }
        match last_wrapper(bare_item(items, k - 1)) {
            Some(t) => Some(t),
            None => last_wrapper_before(items, k - 1),
        }
    }
}

pub open spec fn same_found(r: Option<String>, s: Option<Seq<char>>) -> bool {
    match r {
        Some(t) => s == Some(t@),
        None => s is None,
    }
}

/// The identifier that wraps the location, found in place.
fn find_wrapper(items: &Vec<SExpr>) -> (r: Option<String>)
    ensures
        same_found(r, wrapper(sexprs_view(items@))),
{
    if !is_exec4(items) {
        return None;
    }
    assert(sexprs_view(items@)[1] == items@[1]@);
    match &items[1] {
        SExpr::List(loc) => {
            if loc.len() != 2 {
                return None;
            }
            assert(sexprs_view(loc@)[0] == loc@[0]@);
            match &loc[0] {
                SExpr::Atom(a) => if is_txid(a.as_str()) {
                    Some(a.clone())
                } else {
                    None
                },
                SExpr::List(_) => None,
            }
        },
        SExpr::Atom(_) => None,
    }
}

fn unwrap_copy(e: &SExpr) -> (r: (SExpr, Option<String>))
    ensures
        r.0@ == unwrapped(e@),
        same_found(r.1, last_wrapper(e@)),
    decreases e, 0int,
{
    match e {
        SExpr::Atom(a) => (SExpr::Atom(a.clone()), None),
        SExpr::List(items) => {
            let (out, found) = unwrap_copies(items);
            let found = match found {
                Some(t) => Some(t),
                None => find_wrapper(items),
            };
            (SExpr::List(out), found)
        },
    }
}

/// Item `k` of a list, the location without its wrapper.
fn unwrap_item(items: &Vec<SExpr>, k: usize, is_wrapped: bool) -> (r: (SExpr, Option<String>))
    requires
        k < items@.len(),
        is_wrapped == (wrapper(sexprs_view(items@)) is Some),
    ensures
        r.0@ == unwrapped(bare_item(sexprs_view(items@), k as int)),
        same_found(r.1, last_wrapper(bare_item(sexprs_view(items@), k as int))),
    decreases items, 0int,
{
    assert(sexprs_view(items@)[k as int] == items@[k as int]@);
    match &items[k] {
        SExpr::List(loc) => {
            if k == 1 && is_wrapped {
                assert(sexprs_view(loc@)[1] == loc@[1]@);
                proof {
                    assert(decreases_to!(items => items@[k as int]));
                    assert(decreases_to!(items@[k as int] => loc));
                    assert(decreases_to!(loc => loc@[1]));
                }
                unwrap_copy(&loc[1])
            } else {
                unwrap_copy(&items[k])
            }
        },
        SExpr::Atom(_) => unwrap_copy(&items[k]),
    }
}

fn unwrap_copies(items: &Vec<SExpr>) -> (r: (Vec<SExpr>, Option<String>))
    ensures
        sexprs_view(r.0@) == unwrapped_from(sexprs_view(items@), 0),
        same_found(
            r.1,
            last_wrapper_before(sexprs_view(items@), sexprs_view(items@).len() as int),
        ),
    decreases items, 1int,
{
    let ghost es = sexprs_view(items@);
    let is_wrapped = find_wrapper(items).is_some();
    let mut out: Vec<SExpr> = Vec::new();
    let mut found: Option<String> = None;
    let mut i: usize = 0;
    assert(sexprs_view(out@) + unwrapped_from(es, 0) =~= unwrapped_from(es, 0));
    while i < items.len()
        invariant
            0 <= i <= items@.len(),
            es == sexprs_view(items@),
            is_wrapped == (wrapper(es) is Some),
            sexprs_view(out@) + unwrapped_from(es, i as int) == unwrapped_from(es, 0),
            same_found(found, last_wrapper_before(es, i as int)),
        decreases items@.len() - i,
    {
        let ghost before = out@;
        let (item, t) = unwrap_item(items, i, is_wrapped);
        if t.is_some() {
            found = t;
        }
        out.push(item);
        proof {
            let rest = unwrapped_from(es, i + 1);
            assert(sexprs_view(out@) =~= sexprs_view(before) + seq![item@]);
            assert(sexprs_view(before) + (seq![item@] + rest) =~= sexprs_view(out@) + rest);
        }
        i = i + 1;
    }
    assert(sexprs_view(out@) + unwrapped_from(es, i as int) =~= sexprs_view(out@));
    (out, found)
}

/// Takes every wrapper off an expression, and returns the last identifier found.
pub fn unwrap_execs(e: &mut SExpr) -> (r: Option<String>)
    ensures
        final(e)@ == unwrapped(old(e)@),
        same_found(r, last_wrapper(old(e)@)),
{
    let (u, found) = unwrap_copy(&*e);
    *e = u;
    found
}

/// The texts of wrapped expressions, a line each, from the `k`-th on.
pub open spec fn rewritten_from(es: Seq<SExprView>, ns: Seq<char>, k: int) -> Seq<char>
    decreases es.len() - k,
{
    if k < 0 || k >= es.len() {
        seq![]
    } else {
        text_of(wrapped(es[k], ns)) + "\n"@ + rewritten_from(es, ns, k + 1)
    }
}

/// A transaction as the kernel loads it: every expression wrapped, a line each.
pub open spec fn rewritten(src: Seq<char>, ns: Seq<char>) -> Result<Seq<char>, Seq<char>> {
    match parsed(src) {
        Ok(es) => Ok(rewritten_from(es, ns, 0)),
        Err(e) => Err(e),
    }
}

/// Parses a transaction, wraps every location, and writes it out again.
pub fn rewrite(src: &str, ns: &str) -> (r: Result<String, String>)
    ensures
        match r {
            Ok(t) => rewritten(src@, ns@) == Ok::<Seq<char>, Seq<char>>(t@),
            Err(e) => rewritten(src@, ns@) == Err::<Seq<char>, Seq<char>>(e@),
        },
{
    let exprs = match parse_all(src) {
        Ok(exprs) => exprs,
        Err(e) => return Err(e),
    };
    let ghost es = sexprs_view(exprs@);
    let mut out = String::new();
    let mut i: usize = 0;
    assert(out@ + rewritten_from(es, ns@, 0) =~= rewritten_from(es, ns@, 0));
    while i < exprs.len()
        invariant
            0 <= i <= exprs@.len(),
            es == sexprs_view(exprs@),
            out@ + rewritten_from(es, ns@, i as int) == rewritten_from(es, ns@, 0),
        decreases exprs@.len() - i,
    {
        let ghost before = out@;
        assert(es[i as int] == exprs@[i as int]@);
        let w = wrap_copy(&exprs[i], ns);
        out.append(to_text(&w).as_str());
        out.append("\n");
        proof {
            let rest = rewritten_from(es, ns@, i + 1);
            assert(before + (text_of(w@) + "\n"@ + rest) =~= out@ + rest);
        }
        i = i + 1;
    }
    assert(out@ + rewritten_from(es, ns@, i as int) =~= out@);
    Ok(out)
}

pub open spec fn unwrapped_all(es: Seq<SExprView>) -> Seq<SExprView> {
    es.map_values(|e: SExprView| unwrapped(e))
}

/// The last identifier found in the first `k` expressions.
pub open spec fn last_found(es: Seq<SExprView>, k: int) -> Option<Seq<char>>
    decreases k,
{
    if k <= 0 || k > es.len() {
        None
    } else {
        match last_wrapper(es[k - 1]) {
            Some(t) => Some(t),
            None => last_found(es, k - 1),
        }
    }
}

/// A text without wrappers, and the last identifier found; a text that holds no expression, or
/// cannot be parsed, is left as it is.
pub open spec fn unwrapped_text(line: Seq<char>) -> (Seq<char>, Option<Seq<char>>) {
    match parsed(line) {
        Ok(es) => if es.len() > 0 {
            (joined(unwrapped_all(es), 0), last_found(es, es.len() as int))
        } else {
            (line, None)
        },
        Err(_) => (line, None),
    }
}

/// Strips wrappers from a text, for events and exports.
pub fn unwrap_text(line: &str) -> (r: (String, Option<String>))
    ensures
        r.0@ == unwrapped_text(line@).0,
        same_found(r.1, unwrapped_text(line@).1),
{
    let exprs = match parse_all(line) {
        Ok(exprs) => exprs,
        Err(_) => return (line.to_owned(), None),
    };
    if exprs.len() == 0 {
        return (line.to_owned(), None);
    }
    let ghost es = sexprs_view(exprs@);
    let mut out: Vec<SExpr> = Vec::new();
    let mut found: Option<String> = None;
    let mut i: usize = 0;
    while i < exprs.len()
        invariant
            0 <= i <= exprs@.len(),
            es == sexprs_view(exprs@),
            out@.len() == i,
            forall|k: int| 0 <= k < i ==> (#[trigger] out@[k])@ == unwrapped(es[k]),
            same_found(found, last_found(es, i as int)),
        decreases exprs@.len() - i,
    {
        assert(es[i as int] == exprs@[i as int]@);
        let (u, t) = unwrap_copy(&exprs[i]);
        if t.is_some() {
            found = t;
        }
        out.push(u);
        i = i + 1;
    }
    assert(sexprs_view(out@) =~= unwrapped_all(es));
    (join_texts(&out), found)
}

} // verus!
