//! What facts about attention are: which expressions they are, which of them is the limit of the
//! focus, and how they are ranked.
use vstd::prelude::*;
use vstd::utf8::{decode_utf8, encode_utf8, valid_utf8};

use crate::expr::{
    encodable, encode, encode_all, ground, lemma_encode_all_push, read_of_encode, ExprTree,
};
use crate::paths::path_lt;
use crate::sweep::sti::{
    af_from, af_reading, ahead, malformed_facts, sti_reading, valid_facts, AfReading, NumbersView,
    StiReading, StiView,
};

verus! {

/// Where the items of an encoded list lie.
proof fn lemma_first(items: Seq<ExprTree>, tail: Seq<u8>)
    requires
        encodable(ExprTree::List(items)),
        items.len() > 0,
    ensures
        ({
            let path = encode(ExprTree::List(items)) + tail;
            crate::expr::read(path, 1) == crate::expr::Reading::Tree(
                items[0],
                1 + encode(items[0]).len() as int,
            )
        }),
{
    let path = encode(ExprTree::List(items)) + tail;
    let first = encode(items[0]);
    assert(encode(ExprTree::List(items)) =~= seq![items.len() as u8] + (first + encode_all(
        items.drop_first(),
    )));
    assert(path.subrange(1, 1 + first.len() as int) =~= first);
    read_of_encode(path, 1, items[0]);
}

proof fn lemma_three(items: Seq<ExprTree>, tail: Seq<u8>)
    requires
        encodable(ExprTree::List(items)),
        items.len() == 3,
    ensures
        ({
            let path = encode(ExprTree::List(items)) + tail;
            let start = 1 + encode(items[0]).len() as int;
            let mid = start + encode(items[1]).len() as int;
            let end = mid + encode(items[2]).len() as int;
            &&& path[0] == 3
            &&& crate::expr::read(path, 1) == crate::expr::Reading::Tree(items[0], start)
            &&& crate::expr::read(path, start) == crate::expr::Reading::Tree(items[1], mid)
            &&& crate::expr::read(path, mid) == crate::expr::Reading::Tree(items[2], end)
            &&& path.subrange(start, mid) == encode(items[1])
            &&& path.len() == end + tail.len()
        }),
{
    let path = encode(ExprTree::List(items)) + tail;
    let (a, b, c) = (items[0], items[1], items[2]);
    lemma_encode_all_push(seq![], a);
    lemma_encode_all_push(seq![a], b);
    lemma_encode_all_push(seq![a, b], c);
    assert(Seq::<ExprTree>::empty().push(a) =~= seq![a]);
    assert(seq![a].push(b) =~= seq![a, b]);
    assert(seq![a, b].push(c) =~= items);
    assert(encode_all(seq![]) =~= seq![]);
    assert(encode_all(items) =~= encode(a) + (encode(b) + encode(c)));
    assert(path =~= seq![3u8] + (encode(a) + (encode(b) + encode(c))) + tail);
    let start = 1 + encode(a).len() as int;
    let mid = start + encode(b).len() as int;
    let end = mid + encode(c).len() as int;
    assert(path.subrange(1, start) =~= encode(a));
    assert(path.subrange(start, mid) =~= encode(b));
    assert(path.subrange(mid, end) =~= encode(c));
    read_of_encode(path, 1, a);
    read_of_encode(path, start, b);
    read_of_encode(path, mid, c);
}

/// The number that a symbol writes, where it writes one that can be ranked.
pub open spec fn ranked(t: ExprTree, numbers: NumbersView) -> bool {
    &&& t matches ExprTree::Symbol(b)
    &&& valid_utf8(b)
    &&& numbers.contains_key(decode_utf8(b))
    &&& numbers[decode_utf8(b)].rank is Some
}

/// A path is about attention where it is a list that starts with `STI`. It is valid where it is
/// `(STI atom number)` to its end, of an atom without variables and a number that can be ranked;
/// then it carries the atom and the rank. Anything else that starts with `STI` is malformed.
pub proof fn a_fact_is_read_by_its_parts(t: ExprTree, tail: Seq<u8>, numbers: NumbersView)
    requires
        encodable(t),
    ensures
        ({
            let path = encode(t) + tail;
            let sti = ExprTree::Symbol(encode_utf8("STI"@));
            match t {
                ExprTree::List(items) => if items.len() == 0 || items[0] != sti {
                    items.len() > 0 || tail.len() == 0 ==> sti_reading(path, numbers) is Unrelated
                } else if items.len() == 3 && ground(items[1]) && ranked(items[2], numbers)
                    && tail.len() == 0 {
                    sti_reading(path, numbers) == StiReading::Valid(
                        StiView {
                            path,
                            atom_key: encode(items[1]),
                            sti: numbers[decode_utf8(items[2]->Symbol_0)].rank->0,
                        },
                    )
                } else {
                    sti_reading(path, numbers) is Malformed
                },
                _ => sti_reading(path, numbers) is Unrelated,
            }
        }),
{
    let path = encode(t) + tail;
    match t {
        ExprTree::List(items) => {
            assert(path[0] == items.len() as u8);
            if items.len() > 0 {
                lemma_first(items, tail);
            }
            if items.len() == 3 {
                lemma_three(items, tail);
            }
        },
        ExprTree::NewVar => {
            assert(path[0] == 0xC0);
        },
        ExprTree::VarRef(i) => {
            assert(path[0] == 0x80 + i);
        },
        ExprTree::Symbol(b) => {
            assert(path[0] == 0xC0 + b.len());
        },
    }
}

/// The limit of the focus is `(ECANParam MAX_AF_SIZE number)`; any other expression says nothing
/// of it. Where what stands in the number's place is no symbol, is not the end, is no text, is no
/// number or is no size, that is told.
pub proof fn a_limit_is_read_by_its_parts(t: ExprTree, tail: Seq<u8>, numbers: NumbersView)
    requires
        encodable(t),
    ensures
        ({
            let path = encode(t) + tail;
            let r = af_reading(path, numbers);
            let functor = ExprTree::Symbol(encode_utf8("ECANParam"@));
            let name = ExprTree::Symbol(encode_utf8("MAX_AF_SIZE"@));
            if t matches ExprTree::List(items) && items.len() == 3 && items[0] == functor
                && items[1] == name {
                match t->List_0[2] {
                    ExprTree::Symbol(b) => if tail.len() > 0 {
                        r == AfReading::Bad("MAX_AF_SIZE fact has trailing data"@)
                    } else if !valid_utf8(b) {
                        r == AfReading::Bad("MAX_AF_SIZE is not UTF-8"@)
                    } else if !numbers.contains_key(decode_utf8(b)) {
                        r == AfReading::Bad("MAX_AF_SIZE is not numeric"@)
                    } else {
                        match numbers[decode_utf8(b)].size {
                            Some(n) => r == AfReading::Size(n),
                            None => r == AfReading::Bad(
                                "MAX_AF_SIZE must be a finite nonnegative integer"@,
                            ),
                        }
                    },
                    _ => r == AfReading::Bad("MAX_AF_SIZE must be a numeric symbol"@),
                }
            } else {
                r is Unrelated
            }
        }),
{
    let path = encode(t) + tail;
    match t {
        ExprTree::List(items) => {
            assert(path[0] == items.len() as u8);
            if items.len() == 3 {
                lemma_three(items, tail);
            }
        },
        ExprTree::NewVar => {
            assert(path[0] == 0xC0);
        },
        ExprTree::VarRef(i) => {
            assert(path[0] == 0x80 + i);
        },
        ExprTree::Symbol(b) => {
            assert(path[0] == 0xC0 + b.len());
        },
    }
}

proof fn lemma_unrelated_skipped(
    ps: Seq<Seq<u8>>,
    numbers: NumbersView,
    i: int,
    j: int,
    found: Option<usize>,
)
    requires
        0 <= i <= j <= ps.len(),
        forall|k: int| i <= k < j ==> af_reading(#[trigger] ps[k], numbers) is Unrelated,
    ensures
        af_from(ps, numbers, i, found) == af_from(ps, numbers, j, found),
    decreases j - i,
{
    if i < j {
        assert(af_reading(ps[i], numbers) is Unrelated);
        lemma_unrelated_skipped(ps, numbers, i + 1, j, found);
    }
}

/// The limit is the one that exactly one path tells. Where none does, where two do, and where one
/// tells a bad one, there is no limit, and the first fault is told.
pub proof fn the_limit_is_told_once(ps: Seq<Seq<u8>>, numbers: NumbersView, i: int, j: int)
    requires
        0 <= i < j <= ps.len() || i == j == ps.len(),
        forall|k: int|
            0 <= k < j && k != i ==> af_reading(#[trigger] ps[k], numbers) is Unrelated,
        i < ps.len() ==> !(af_reading(ps[i], numbers) is Unrelated),
        j < ps.len() ==> !(af_reading(ps[j], numbers) is Unrelated),
    ensures
        af_from(ps, numbers, 0, None) == if i == ps.len() {
            Err::<usize, Seq<char>>("MAX_AF_SIZE fact not found"@)
        } else {
            match af_reading(ps[i], numbers) {
                AfReading::Bad(e) => Err(e),
                AfReading::Size(n) => if j == ps.len() {
                    Ok(n)
                } else {
                    match af_reading(ps[j], numbers) {
                        AfReading::Bad(e) => Err(e),
                        _ => Err("multiple MAX_AF_SIZE facts found"@),
                    }
                },
                AfReading::Unrelated => arbitrary(),
            }
        },
{
    lemma_unrelated_skipped(ps, numbers, 0, i, None);
    if i < ps.len() {
        match af_reading(ps[i], numbers) {
            AfReading::Size(n) => lemma_unrelated_skipped(ps, numbers, i + 1, j, Some(n)),
            _ => {},
        }
    }
}

/// The index lists every valid path's fact, once, in the order of the paths.
pub proof fn every_valid_fact_is_listed(ps: Seq<Seq<u8>>, numbers: NumbersView)
    ensures
        valid_facts(ps, numbers) == ps.filter(
            |p: Seq<u8>| sti_reading(p, numbers) is Valid,
        ).map_values(|p: Seq<u8>| sti_reading(p, numbers)->Valid_0),
    decreases ps.len(),
{
    let valid = |p: Seq<u8>| sti_reading(p, numbers) is Valid;
    let fact = |p: Seq<u8>| sti_reading(p, numbers)->Valid_0;
    reveal_with_fuel(Seq::filter, 1);
    if ps.len() > 0 {
        every_valid_fact_is_listed(ps.drop_last(), numbers);
        let front = ps.drop_last().filter(valid);
        let p = ps.last();
        if valid(p) {
            assert(ps.filter(valid) =~= front.push(p));
            assert(ps.filter(valid).map_values(fact) =~= front.map_values(fact).push(fact(p)));
        }
    } else {
        assert(ps.filter(valid).map_values(fact) =~= seq![]);
    }
}

/// The index counts the malformed paths.
pub proof fn every_malformed_fact_is_counted(ps: Seq<Seq<u8>>, numbers: NumbersView)
    ensures
        malformed_facts(ps, numbers) == ps.filter(
            |p: Seq<u8>| sti_reading(p, numbers) is Malformed,
        ).len(),
    decreases ps.len(),
{
    reveal_with_fuel(Seq::filter, 1);
    if ps.len() > 0 {
        every_malformed_fact_is_counted(ps.drop_last(), numbers);
    }
}

/// A path comes before another where it is a proper prefix of it, or has the smaller byte where
/// the two first differ.
pub proof fn paths_are_ordered_byte_by_byte(a: Seq<u8>, b: Seq<u8>, k: int)
    requires
        0 <= k <= a.len(),
        k <= b.len(),
        a.take(k) == b.take(k),
        k < a.len() && k < b.len() ==> a[k] != b[k],
    ensures
        path_lt(a, b) <==> k < b.len() && (k == a.len() || a[k] < b[k]),
    decreases k,
{
    if k > 0 {
        assert(a[0] == a.take(k)[0]);
        assert(b[0] == b.take(k)[0]);
        assert(a.drop_first().take(k - 1) =~= a.take(k).drop_first());
        assert(b.drop_first().take(k - 1) =~= b.take(k).drop_first());
        paths_are_ordered_byte_by_byte(a.drop_first(), b.drop_first(), k - 1);
    }
}

/// The focus goes by rank, the highest first; facts of one rank go by atom, and facts of one atom
/// by path. The listing goes by atom and by path alone.
pub proof fn the_focus_goes_by_rank(a: StiView, b: StiView)
    ensures
        a.sti > b.sti ==> ahead(true, a, b),
        a.sti < b.sti ==> !ahead(true, a, b),
        a.sti == b.sti ==> ahead(true, a, b) == ahead(false, a, b),
        a.atom_key != b.atom_key ==> ahead(false, a, b) == path_lt(a.atom_key, b.atom_key),
        a.atom_key == b.atom_key ==> ahead(false, a, b) == path_lt(a.path, b.path),
{
    crate::paths::path_lt_irreflexive(a.atom_key);
}

} // verus!
