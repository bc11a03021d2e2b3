//! Short-term importance: the `(STI atom value)` facts of a snapshot.
use vstd::prelude::*;
use vstd::utf8::{decode_utf8, encode_utf8, valid_utf8};

use crate::expr::{
    byte_tag, decode, encodable, encode, encode_all, ground, lemma_encode_all_push, read, read_is_encoding, read_of_encode,
    Decoded, ExprTree, Reading, Tag,
};
use crate::paths::{compare_paths, copy_path, path_lt, path_lt_irreflexive, path_lt_total, path_lt_transitive, PathMap, PathOrder};
use crate::table::Table;
use crate::text::{bytes_eq, string_from_utf8};

verus! {

/// What is known of the floating-point number that a text writes.
#[derive(Clone, Copy, Debug)]
pub struct NumberParts {
    /// The place of the number in the order of such numbers, if it is finite and not negative.
    pub rank: Option<u64>,
    /// The number, if it is a size: finite, whole, not negative, and small enough.
    pub size: Option<usize>,
}

/// The numbers that texts write; a text that writes none has no entry.
pub type Numbers = Table<NumberParts>;

pub type NumbersView = Map<Seq<char>, NumberParts>;

/// One valid fact of a snapshot.
#[derive(Debug)]
pub struct StiCandidate {
    /// The whole encoded fact.
    pub path: Vec<u8>,
    /// The encoded atom.
    pub atom_key: Vec<u8>,
    /// The place of the fact's value in the order of values.
    pub sti: u64,
}

/// The mathematical value of a `StiCandidate`.
pub ghost struct StiView {
    pub path: Seq<u8>,
    pub atom_key: Seq<u8>,
    pub sti: u64,
}

impl StiCandidate {
    pub open spec fn view(&self) -> StiView {
        StiView { path: self.path@, atom_key: self.atom_key@, sti: self.sti }
    }

    /// A copy of the fact.
    pub fn copy(&self) -> (r: Self)
        ensures
            r@ == self@,
    {
        StiCandidate {
            path: copy_path(&self.path),
            atom_key: copy_path(&self.atom_key),
            sti: self.sti,
        }
    }
}

pub open spec fn sti_views(cs: Seq<StiCandidate>) -> Seq<StiView> {
    cs.map_values(|c: StiCandidate| c@)
}

/// The symbol at an offset, and the offset behind it.
pub open spec fn symbol_read(s: Seq<u8>, off: int) -> Option<(Seq<u8>, int)> {
    match read(s, off) {
        Reading::Tree(ExprTree::Symbol(b), end) => Some((b, end)),
        _ => None,
    }
}

/// Reads the symbol at an offset.
fn symbol_at(path: &[u8], offset: usize) -> (r: Option<(&[u8], usize)>)
    ensures
        match r {
            Some((b, end)) => symbol_read(path@, offset as int) == Some((b@, end as int)) && end
                <= path@.len(),
            None => symbol_read(path@, offset as int) is None,
        },
{
    if offset >= path.len() || path[offset] <= 0xC0 {
        return None;
    }
    let size: usize = (path[offset] - 0xC0) as usize;
    if path.len() - offset - 1 < size {
        return None;
    }
    let end: usize = offset + 1 + size;
    Some((vstd::slice::slice_subrange(path, offset + 1, end), end))
}

/// Where the expression at an offset ends, and whether it is ground.
fn expression_end(path: &[u8], offset: usize) -> (r: Option<(usize, bool)>)
    ensures
        match r {
            Some((end, closed_term)) => (read(path@, offset as int) matches Reading::Tree(t, e) && e
                == end && closed_term == ground(t)) && offset < end <= path@.len(),
            None => !(read(path@, offset as int) is Tree),
        },
{
    proof {
        read_is_encoding(path@, offset as int);
    }
    match decode(path, offset) {
        Decoded::Tree(e, end) => Some((end, e.is_ground())),
        _ => None,
    }
}

/// What a path is to the index.
pub ghost enum StiReading {
    Valid(StiView),
    Malformed,
    Unrelated,
}

/// Whether a path is a list that starts with the symbol `STI`.
pub open spec fn has_sti_functor_spec(path: Seq<u8>) -> bool {
    &&& path.len() > 0
    &&& byte_tag(path[0]) matches Some(Tag::Arity(_))
    &&& symbol_read(path, 1) matches Some((name, _)) && name == encode_utf8("STI"@)
}

/// A valid fact is a list of exactly the symbol `STI`, an atom without variables, and a symbol
/// that writes a finite number that is not negative. Any other list that starts with `STI` is
/// malformed.
pub open spec fn sti_reading(path: Seq<u8>, numbers: NumbersView) -> StiReading {
    if !has_sti_functor_spec(path) {
        StiReading::Unrelated
    } else if byte_tag(path[0]) != Some(Tag::Arity(3)) {
        StiReading::Malformed
    } else {
        let start = (symbol_read(path, 1)->0).1;
        match read(path, start) {
            Reading::Tree(atom, mid) => match symbol_read(path, mid) {
                Some((number, end)) => if ground(atom) && end == path.len() && valid_utf8(number)
                    && numbers.contains_key(decode_utf8(number)) && numbers[decode_utf8(
                    number,
                )].rank is Some {
                    StiReading::Valid(
                        StiView {
                            path,
                            atom_key: path.subrange(start, mid),
                            sti: numbers[decode_utf8(number)].rank->0,
                        },
                    )
                } else {
                    StiReading::Malformed
                },
                None => StiReading::Malformed,
            },
            _ => StiReading::Malformed,
        }
    }
}

/// What `parse_sti_fact` finds.
pub enum StiFact {
    Valid(StiCandidate),
    Malformed,
    Unrelated,
}

impl StiFact {
    pub open spec fn view(&self) -> StiReading {
        match self {
            StiFact::Valid(c) => StiReading::Valid(c@),
            StiFact::Malformed => StiReading::Malformed,
            StiFact::Unrelated => StiReading::Unrelated,
        }
    }
}

/// Whether a path is a list that starts with the symbol `STI`.
fn has_sti_functor(path: &[u8]) -> (r: bool)
    ensures
        r == has_sti_functor_spec(path@),
{
    if path.len() == 0 || path[0] >= 0x40 {
        return false;
    }
    match symbol_at(path, 1) {
        Some((name, _)) => bytes_eq(name, "STI".as_bytes()),
        None => false,
    }
}

/// Reads a path as a fact.
pub fn parse_sti_fact(path: &[u8], numbers: &Numbers) -> (r: StiFact)
    ensures
        r@ == sti_reading(path@, numbers@),
{
    if !has_sti_functor(path) {
        return StiFact::Unrelated;
    }
    if path[0] != 3 {
        return StiFact::Malformed;
    }
    let start: usize = match symbol_at(path, 1) {
        Some((_, end)) => end,
        None => return StiFact::Malformed,
    };
    let (mid, closed_term): (usize, bool) = match expression_end(path, start) {
        Some(x) => x,
        None => return StiFact::Malformed,
    };
    if !closed_term {
        return StiFact::Malformed;
    }
    let (number, end): (&[u8], usize) = match symbol_at(path, mid) {
        Some(x) => x,
        None => return StiFact::Malformed,
    };
    if end != path.len() {
        return StiFact::Malformed;
    }
    let text: String = match string_from_utf8(number) {
        Ok(t) => t,
        Err(_) => return StiFact::Malformed,
    };
    match numbers.get(text.as_str()) {
        Some(parts) => match parts.rank {
            Some(sti) => {
                let atom = vstd::slice::slice_subrange(path, start, mid);
                StiFact::Valid(
                    StiCandidate {
                        path: vstd::slice::slice_to_vec(path),
                        atom_key: vstd::slice::slice_to_vec(atom),
                        sti,
                    },
                )
            },
            None => StiFact::Malformed,
        },
        None => StiFact::Malformed,
    }
}

/// An `(STI atom value)` fact is valid exactly if its atom is ground and its value writes a finite
/// number that is not negative; the index then holds the whole fact and the whole atom.
pub proof fn exact_facts_are_found(atom: ExprTree, value: Seq<char>, numbers: NumbersView)
    requires
        encodable(atom),
        1 <= encode_utf8(value).len() < 64,
    ensures
        ({
            let fact = encode(
                ExprTree::List(
                    seq![
                        ExprTree::Symbol(encode_utf8("STI"@)),
                        atom,
                        ExprTree::Symbol(encode_utf8(value)),
                    ],
                ),
            );
            sti_reading(fact, numbers) == if ground(atom) && numbers.contains_key(value)
                && numbers[value].rank is Some {
                StiReading::Valid(
                    StiView { path: fact, atom_key: encode(atom), sti: numbers[value].rank->0 },
                )
            } else {
                StiReading::Malformed
            }
        }),
{
    reveal_strlit("STI");
    crate::text::lemma_ascii_bytes("STI"@);
    vstd::utf8::encode_utf8_valid_utf8(value);
    vstd::utf8::encode_utf8_decode_utf8(value);
    let name = ExprTree::Symbol(encode_utf8("STI"@));
    let number = ExprTree::Symbol(encode_utf8(value));
    let items = seq![name, atom, number];
    let fact = encode(ExprTree::List(items));
    lemma_encode_all_push(seq![], name);
    lemma_encode_all_push(seq![name], atom);
    lemma_encode_all_push(seq![name, atom], number);
    assert(Seq::<ExprTree>::empty().push(name) =~= seq![name]);
    assert(seq![name].push(atom) =~= seq![name, atom]);
    assert(seq![name, atom].push(number) =~= items);
    assert(encode_all(seq![]) =~= seq![]);
    assert(encode_all(items) =~= encode(name) + (encode(atom) + encode(number)));
    assert(fact =~= seq![3u8] + (encode(name) + (encode(atom) + encode(number))));
    let start = 1 + encode(name).len();
    let mid = start + encode(atom).len();
    let end = mid + encode(number).len();
    assert(fact.subrange(1, start as int) =~= encode(name));
    assert(fact.subrange(start as int, mid as int) =~= encode(atom));
    assert(fact.subrange(mid as int, end as int) =~= encode(number));
    read_of_encode(fact, 1, name);
    read_of_encode(fact, start as int, atom);
    read_of_encode(fact, mid as int, number);
}

/// The order of the index: by atom, then by fact.
pub open spec fn atom_order(a: StiView, b: StiView) -> bool {
    path_lt(a.atom_key, b.atom_key) || (a.atom_key == b.atom_key && path_lt(a.path, b.path))
}

/// The order of the attentional focus: by falling value, then as in the index.
pub open spec fn focus_order(a: StiView, b: StiView) -> bool {
    a.sti > b.sti || (a.sti == b.sti && atom_order(a, b))
}

/// One order or the other.
pub open spec fn ahead(by_value: bool, a: StiView, b: StiView) -> bool {
    if by_value {
        focus_order(a, b)
    } else {
        atom_order(a, b)
    }
}

pub open spec fn in_order(by_value: bool, cs: Seq<StiView>) -> bool {
    forall|i: int, j: int| 0 <= i < j < cs.len() ==> ahead(by_value, #[trigger] cs[i], #[trigger] cs[j])
}

/// Whether no fact stands in a list twice.
pub open spec fn distinct_facts(cs: Seq<StiView>) -> bool {
    forall|i: int, j: int|
        0 <= i < j < cs.len() ==> (#[trigger] cs[i]).path != (#[trigger] cs[j]).path
}

/// Whether two lists hold the same facts.
pub open spec fn same_facts(a: Seq<StiView>, b: Seq<StiView>) -> bool {
    forall|c: StiView| #[trigger] a.contains(c) <==> b.contains(c)
}

proof fn lemma_ahead_transitive(by_value: bool, a: StiView, b: StiView, c: StiView)
    requires
        ahead(by_value, a, b),
        ahead(by_value, b, c),
    ensures
        ahead(by_value, a, c),
{
    if path_lt(a.atom_key, b.atom_key) && path_lt(b.atom_key, c.atom_key) {
        path_lt_transitive(a.atom_key, b.atom_key, c.atom_key);
    }
    if path_lt(a.path, b.path) && path_lt(b.path, c.path) {
        path_lt_transitive(a.path, b.path, c.path);
    }
}

proof fn lemma_ahead_total(by_value: bool, a: StiView, b: StiView)
    requires
        a.path != b.path,
    ensures
        ahead(by_value, a, b) || ahead(by_value, b, a),
{
    path_lt_total(a.atom_key, b.atom_key);
    path_lt_total(a.path, b.path);
}

proof fn lemma_ahead_irreflexive(by_value: bool, a: StiView)
    ensures
        !ahead(by_value, a, a),
{
    path_lt_irreflexive(a.atom_key);
    path_lt_irreflexive(a.path);
}

fn is_ahead(by_value: bool, a: &StiCandidate, b: &StiCandidate) -> (r: bool)
    ensures
        r == ahead(by_value, a@, b@),
{
    if by_value && a.sti != b.sti {
        return a.sti > b.sti;
    }
    proof {
        path_lt_irreflexive(a.atom_key@);
        path_lt_irreflexive(a.path@);
        if path_lt(a.atom_key@, b.atom_key@) && path_lt(b.atom_key@, a.atom_key@) {
            path_lt_transitive(a.atom_key@, b.atom_key@, a.atom_key@);
        }
        if path_lt(a.path@, b.path@) && path_lt(b.path@, a.path@) {
            path_lt_transitive(a.path@, b.path@, a.path@);
        }
    }
    match compare_paths(a.atom_key.as_slice(), b.atom_key.as_slice()) {
        PathOrder::Before => true,
        PathOrder::After => false,
        PathOrder::Same => match compare_paths(a.path.as_slice(), b.path.as_slice()) {
            PathOrder::Before => true,
            _ => false,
        },
    }
}

/// Puts a fact into its place.
pub(crate) fn put_in_order(cs: &mut Vec<StiCandidate>, c: StiCandidate, by_value: bool)
    requires
        in_order(by_value, sti_views(old(cs)@)),
        forall|i: int| 0 <= i < old(cs)@.len() ==> (#[trigger] old(cs)@[i])@.path != c@.path,
        old(cs)@.len() < usize::MAX,
    ensures
        in_order(by_value, sti_views(final(cs)@)),
        final(cs)@.len() == old(cs)@.len() + 1,
        forall|x: StiView| #[trigger]
            sti_views(final(cs)@).contains(x) <==> sti_views(old(cs)@).contains(x) || x == c@,
{
    let ghost before = sti_views(cs@);
    let mut i: usize = 0;
    while i < cs.len() && !is_ahead(by_value, &c, &cs[i])
        invariant
            i <= cs@.len(),
            before == sti_views(cs@),
            forall|k: int| 0 <= k < cs@.len() ==> (#[trigger] cs@[k])@.path != c@.path,
            forall|k: int| 0 <= k < i ==> ahead(by_value, #[trigger] before[k], c@),
        decreases cs@.len() - i,
    {
        proof {
            lemma_ahead_total(by_value, cs@[i as int]@, c@);
            assert(before[i as int] == cs@[i as int]@);
        }
        i = i + 1;
    }
    proof {
        assert forall|k: int| i <= k < before.len() implies ahead(by_value, c@, #[trigger] before[k]) by {
            assert(before[i as int] == cs@[i as int]@);
            if i < k {
                lemma_ahead_transitive(by_value, c@, before[i as int], before[k]);
            }
        }
    }
    cs.insert(i, c);
    proof {
        let after = sti_views(cs@);
        assert(after =~= before.insert(i as int, c@));
        assert forall|x: StiView| #[trigger] after.contains(x) <==> before.contains(x) || x == c@ by {
            if before.contains(x) {
                let k = choose|k: int| 0 <= k < before.len() && before[k] == x;
                if k < i {
                    assert(after[k] == x);
                } else {
                    assert(after[k + 1] == x);
                }
            }
            if x == c@ {
                assert(after[i as int] == x);
            }
            if after.contains(x) && x != c@ {
                let k = choose|k: int| 0 <= k < after.len() && after[k] == x;
                if k < i {
                    assert(before[k] == x);
                } else {
                    assert(before[k - 1] == x);
                }
            }
        }
        assert forall|a: int, b: int| 0 <= a < b < after.len() implies ahead(
            by_value,
            #[trigger] after[a],
            #[trigger] after[b],
        ) by {
            let x = if a < i { a } else { a - 1 };
            let y = if b < i { b } else { b - 1 };
            if a != i {
                assert(after[a] == before[x]);
            }
            if b != i {
                assert(after[b] == before[y]);
            }
        }
    }
}

/// Two lists in the same order with the same facts are the same list.
pub proof fn order_is_unique(by_value: bool, a: Seq<StiView>, b: Seq<StiView>)
    requires
        in_order(by_value, a),
        in_order(by_value, b),
        same_facts(a, b),
    ensures
        a == b,
    decreases a.len(),
{
    if a.len() == 0 {
        if b.len() > 0 {
            assert(b.contains(b[0]));
            assert(a.contains(b[0]));
        }
        assert(a =~= b);
    } else {
        assert(a.contains(a[0]));
        let k = choose|k: int| 0 <= k < b.len() && b[k] == a[0];
        assert(b.contains(b[0]));
        assert(a.contains(b[0]));
        let m = choose|m: int| 0 <= m < a.len() && a[m] == b[0];
        if k > 0 && m > 0 {
            assert(ahead(by_value, b[0], b[k]));
            assert(ahead(by_value, a[0], a[m]));
            lemma_ahead_transitive(by_value, a[0], b[0], a[0]);
            lemma_ahead_irreflexive(by_value, a[0]);
        }
        assert(a[0] == b[0]);
        let x = a.drop_first();
        let y = b.drop_first();
        assert(same_facts(x, y)) by {
            assert forall|c: StiView| #[trigger] x.contains(c) <==> y.contains(c) by {
                lemma_tail_contains(by_value, a, c);
                lemma_tail_contains(by_value, b, c);
            }
        }
        order_is_unique(by_value, x, y);
        assert(a =~= seq![a[0]] + x);
        assert(b =~= seq![b[0]] + y);
    }
}

proof fn lemma_tail_contains(by_value: bool, a: Seq<StiView>, c: StiView)
    requires
        a.len() > 0,
        in_order(by_value, a),
    ensures
        a.drop_first().contains(c) <==> a.contains(c) && c != a[0],
{
    let x = a.drop_first();
    if x.contains(c) {
        let k = choose|k: int| 0 <= k < x.len() && x[k] == c;
        assert(a[k + 1] == c);
        assert(ahead(by_value, a[0], a[k + 1]));
        lemma_ahead_irreflexive(by_value, a[0]);
    }
    if a.contains(c) && c != a[0] {
        let k = choose|k: int| 0 <= k < a.len() && a[k] == c;
        assert(x[k - 1] == c);
    }
}

/// The valid facts among the listed paths, in the order of the paths.
pub open spec fn valid_facts(ps: Seq<Seq<u8>>, numbers: NumbersView) -> Seq<StiView>
    decreases ps.len(),
{
    if ps.len() == 0 {
        seq![]
    } else {
        match sti_reading(ps.last(), numbers) {
            StiReading::Valid(c) => valid_facts(ps.drop_last(), numbers).push(c),
            _ => valid_facts(ps.drop_last(), numbers),
        }
    }
}

/// The number of malformed facts among the listed paths.
pub open spec fn malformed_facts(ps: Seq<Seq<u8>>, numbers: NumbersView) -> nat
    decreases ps.len(),
{
    if ps.len() == 0 {
        0
    } else {
        malformed_facts(ps.drop_last(), numbers) + if sti_reading(ps.last(), numbers) is Malformed {
            1nat
        } else {
            0
        }
    }
}

/// The facts of one snapshot.
#[derive(Debug)]
pub struct StiIndex {
    pub candidates: Vec<StiCandidate>,
    pub malformed_sti_facts: u64,
}

/// Whether an index is that of a map: the valid facts, ordered by atom and fact, and the number of
/// malformed ones.
pub open spec fn indexes(index: StiIndex, map: &PathMap<u64>, numbers: NumbersView) -> bool {
    &&& in_order(false, sti_views(index.candidates@))
    &&& same_facts(sti_views(index.candidates@), valid_facts(map.paths(), numbers))
    &&& index.malformed_sti_facts == malformed_facts(map.paths(), numbers)
}

proof fn lemma_valid_paths(ps: Seq<Seq<u8>>, numbers: NumbersView, c: StiView)
    requires
        valid_facts(ps, numbers).contains(c),
    ensures
        ps.contains(c.path),
        sti_reading(c.path, numbers) == StiReading::Valid(c),
    decreases ps.len(),
{
    if ps.len() > 0 {
        let front = valid_facts(ps.drop_last(), numbers);
        assert(ps[ps.len() - 1] == ps.last());
        if front.contains(c) {
            lemma_valid_paths(ps.drop_last(), numbers, c);
            let k = ps.drop_last().index_of(c.path);
            assert(ps[k] == c.path);
        } else {
            let all = valid_facts(ps, numbers);
            let k = choose|k: int| 0 <= k < all.len() && all[k] == c;
            if k < front.len() {
                assert(front[k] == c);
            }
        }
    }
}

proof fn lemma_distinct(cs: Seq<StiView>, ps: Seq<Seq<u8>>, numbers: NumbersView)
    requires
        in_order(false, cs),
        same_facts(cs, valid_facts(ps, numbers)),
    ensures
        distinct_facts(cs),
{
    assert forall|i: int, j: int| 0 <= i < j < cs.len() implies (#[trigger] cs[i]).path != (
    #[trigger] cs[j]).path by {
        assert(cs.contains(cs[i]));
        assert(cs.contains(cs[j]));
        lemma_valid_paths(ps, numbers, cs[i]);
        lemma_valid_paths(ps, numbers, cs[j]);
        lemma_ahead_irreflexive(false, cs[i]);
    }
}

impl StiIndex {
    /// Collects the facts of a map.
    pub fn scan(map: &PathMap<u64>, numbers: &Numbers) -> (r: Self)
        ensures
            indexes(r, map, numbers@),
            distinct_facts(sti_views(r.candidates@)),
    {
        let ghost ps = map.paths();
        let mut candidates: Vec<StiCandidate> = Vec::new();
        let mut malformed: u64 = 0;
        let n = map.val_count();
        let mut i: usize = 0;
        proof {
            assert(sti_views(candidates@) =~= seq![]);
            assert(valid_facts(ps.take(0), numbers@) =~= seq![]);
        }
        while i < n
            invariant
                i <= n == ps.len(),
                ps == map.paths(),
                malformed <= i,
                candidates@.len() <= i,
                in_order(false, sti_views(candidates@)),
                same_facts(
                    sti_views(candidates@),
                    valid_facts(ps.take(i as int), numbers@),
                ),
                malformed == malformed_facts(ps.take(i as int), numbers@),
            decreases ps.len() - i,
        {
            let (path, _) = map.entry(i);
            let ghost before = valid_facts(ps.take(i as int), numbers@);
            proof {
                assert(ps.take(i + 1).drop_last() =~= ps.take(i as int));
            }
            match parse_sti_fact(path.as_slice(), numbers) {
                StiFact::Valid(c) => {
                    let ghost view = c@;
                    proof {
                        use_type_invariant(map);
                        map.lemma_paths();
                        assert forall|k: int| 0 <= k < candidates@.len() implies (
                        #[trigger] candidates@[k])@.path != view.path by {
                            let x = candidates@[k]@;
                            assert(sti_views(candidates@)[k] == x);
                            assert(sti_views(candidates@).contains(x));
                            lemma_valid_paths(ps.take(i as int), numbers@, x);
                            let j = ps.take(i as int).index_of(x.path);
                            assert(ps[j] == x.path);
                            assert(path_lt(ps[j], ps[i as int]));
                            path_lt_irreflexive(ps[j]);
                        }
                    }
                    put_in_order(&mut candidates, c, false);
                    proof {
                        let after = valid_facts(ps.take(i + 1), numbers@);
                        assert(after == before.push(view));
                        assert forall|x: StiView| #[trigger]
                            sti_views(candidates@).contains(x) <==> after.contains(x) by {
                            lemma_push_contains(before, view, x);
                        }
                    }
                },
                StiFact::Malformed => {
                    malformed = malformed + 1;
                },
                StiFact::Unrelated => {},
            }
            i = i + 1;
        }
        proof {
            assert(ps.take(i as int) =~= ps);
            lemma_distinct(sti_views(candidates@), ps, numbers@);
        }
        StiIndex { candidates, malformed_sti_facts: malformed }
    }

    /// A copy of the index.
    pub fn copy(&self) -> (r: Self)
        ensures
            sti_views(r.candidates@) == sti_views(self.candidates@),
            r.malformed_sti_facts == self.malformed_sti_facts,
    {
        let mut candidates: Vec<StiCandidate> = Vec::new();
        let mut i: usize = 0;
        while i < self.candidates.len()
            invariant
                i <= self.candidates@.len(),
                sti_views(candidates@) == sti_views(self.candidates@).take(i as int),
            decreases self.candidates@.len() - i,
        {
            let c = self.candidates[i].copy();
            let ghost before = sti_views(candidates@);
            let ghost all = sti_views(self.candidates@);
            candidates.push(c);
            assert(sti_views(candidates@) =~= before.push(all[i as int]));
            i = i + 1;
            assert(sti_views(candidates@) =~= sti_views(self.candidates@).take(i as int));
        }
        assert(sti_views(self.candidates@).take(i as int) =~= sti_views(self.candidates@));
        StiIndex { candidates, malformed_sti_facts: self.malformed_sti_facts }
    }
}

pub proof fn lemma_push_contains(s: Seq<StiView>, c: StiView, x: StiView)
    ensures
        s.push(c).contains(x) <==> s.contains(x) || x == c,
{
    if s.contains(x) {
        let k = choose|k: int| 0 <= k < s.len() && s[k] == x;
        assert(s.push(c)[k] == x);
    }
    if x == c {
        assert(s.push(c)[s.len() as int] == x);
    }
    if s.push(c).contains(x) && x != c {
        let k = choose|k: int| 0 <= k < s.push(c).len() && s.push(c)[k] == x;
        assert(s[k] == x);
    }
}

/// The index of the current snapshot, built when it is first asked for.
pub struct SnapshotStiIndex {
    index: Option<StiIndex>,
    rebuilds: u64,
}

impl SnapshotStiIndex {
    pub closed spec fn cached(&self) -> Option<StiIndex> {
        self.index
    }

    #[verifier::type_invariant]
    closed spec fn well_formed(self) -> bool {
        self.index matches Some(index) ==> distinct_facts(sti_views(index.candidates@))
    }

    pub closed spec fn rebuild_total(&self) -> u64 {
        self.rebuilds
    }

    /// No index yet.
    pub fn new() -> (r: Self)
        ensures
            r.cached() is None,
            r.rebuild_total() == 0,
    {
        SnapshotStiIndex { index: None, rebuilds: 0 }
    }

    /// Forgets the index.
    pub fn snapshot_changed(&mut self)
        ensures
            final(self).cached() is None,
            final(self).rebuild_total() == old(self).rebuild_total(),
    {
        self.index = None;
    }

    /// The index; it is built from the map only if there is none.
    pub fn get_or_build(&mut self, map: &PathMap<u64>, numbers: &Numbers) -> (r: StiIndex)
        requires
            old(self).rebuild_total() < u64::MAX,
        ensures
            match old(self).cached() {
                Some(index) => final(self).cached() == Some(index) && final(self).rebuild_total()
                    == old(self).rebuild_total(),
                None => (final(self).cached() matches Some(index) && indexes(index, map, numbers@))
                    && final(self).rebuild_total() == old(self).rebuild_total() + 1,
            },
            final(self).cached() matches Some(index) && sti_views(r.candidates@) == sti_views(
                index.candidates@,
            ) && r.malformed_sti_facts == index.malformed_sti_facts,
            distinct_facts(sti_views(r.candidates@)),
    {
        proof {
            use_type_invariant(&*self);
        }
        match &self.index {
            Some(index) => return index.copy(),
            None => {},
        }
        let index = StiIndex::scan(map, numbers);
        let r = index.copy();
        self.rebuilds = self.rebuilds + 1;
        self.index = Some(index);
        r
    }

    /// How often the index was built.
    pub fn rebuild_count(&self) -> (r: u64)
        ensures
            r == self.rebuild_total(),
    {
        self.rebuilds
    }
}

/// What a path says of the size of the attentional focus.
pub ghost enum AfReading {
    Unrelated,
    Bad(Seq<char>),
    Size(usize),
}

pub open spec fn af_reading(path: Seq<u8>, numbers: NumbersView) -> AfReading {
    if path.len() == 0 || byte_tag(path[0]) != Some(Tag::Arity(3)) {
        AfReading::Unrelated
    } else {
        match symbol_read(path, 1) {
            None => AfReading::Unrelated,
            Some((functor, first)) => if functor != encode_utf8("ECANParam"@) {
                AfReading::Unrelated
            } else {
                match symbol_read(path, first) {
                    None => AfReading::Unrelated,
                    Some((name, second)) => if name != encode_utf8("MAX_AF_SIZE"@) {
                        AfReading::Unrelated
                    } else {
                        af_value(path, second, numbers)
                    },
                }
            },
        }
    }
}

/// What the value of a `MAX_AF_SIZE` fact says.
pub open spec fn af_value(path: Seq<u8>, off: int, numbers: NumbersView) -> AfReading {
    match symbol_read(path, off) {
        None => AfReading::Bad("MAX_AF_SIZE must be a numeric symbol"@),
        Some((value, end)) => if end != path.len() {
            AfReading::Bad("MAX_AF_SIZE fact has trailing data"@)
        } else if !valid_utf8(value) {
            AfReading::Bad("MAX_AF_SIZE is not UTF-8"@)
        } else if !numbers.contains_key(decode_utf8(value)) {
            AfReading::Bad("MAX_AF_SIZE is not numeric"@)
        } else {
            match numbers[decode_utf8(value)].size {
                None => AfReading::Bad("MAX_AF_SIZE must be a finite nonnegative integer"@),
                Some(n) => AfReading::Size(n),
            }
        },
    }
}

/// The size of the attentional focus from the `i`-th path on, given the one found before.
pub open spec fn af_from(
    ps: Seq<Seq<u8>>,
    numbers: NumbersView,
    i: int,
    found: Option<usize>,
) -> Result<usize, Seq<char>>
    decreases ps.len() - i,
{
    if i < 0 || i >= ps.len() {
        match found {
            Some(n) => Ok(n),
            None => Err("MAX_AF_SIZE fact not found"@),
        }
    } else {
        match af_reading(ps[i], numbers) {
            AfReading::Unrelated => af_from(ps, numbers, i + 1, found),
            AfReading::Bad(e) => Err(e),
            AfReading::Size(n) => if found is Some {
                Err("multiple MAX_AF_SIZE facts found"@)
            } else {
                af_from(ps, numbers, i + 1, Some(n))
            },
        }
    }
}

/// What `read_af` finds.
enum AfFact {
    Unrelated,
    Bad(String),
    Size(usize),
}

fn read_af_value(path: &[u8], off: usize, numbers: &Numbers) -> (r: AfFact)
    ensures
        match r {
            AfFact::Unrelated => false,
            AfFact::Bad(e) => af_value(path@, off as int, numbers@) == AfReading::Bad(e@),
            AfFact::Size(n) => af_value(path@, off as int, numbers@) == AfReading::Size(n),
        },
{
    let (value, end): (&[u8], usize) = match symbol_at(path, off) {
        Some(x) => x,
        None => return AfFact::Bad("MAX_AF_SIZE must be a numeric symbol".to_owned()),
    };
    if end != path.len() {
        return AfFact::Bad("MAX_AF_SIZE fact has trailing data".to_owned());
    }
    let text: String = match string_from_utf8(value) {
        Ok(t) => t,
        Err(_) => return AfFact::Bad("MAX_AF_SIZE is not UTF-8".to_owned()),
    };
    match numbers.get(text.as_str()) {
        None => AfFact::Bad("MAX_AF_SIZE is not numeric".to_owned()),
        Some(parts) => match parts.size {
            None => AfFact::Bad("MAX_AF_SIZE must be a finite nonnegative integer".to_owned()),
            Some(n) => AfFact::Size(n),
        },
    }
}

fn read_af(path: &[u8], numbers: &Numbers) -> (r: AfFact)
    ensures
        match r {
            AfFact::Unrelated => af_reading(path@, numbers@) is Unrelated,
            AfFact::Bad(e) => af_reading(path@, numbers@) == AfReading::Bad(e@),
            AfFact::Size(n) => af_reading(path@, numbers@) == AfReading::Size(n),
        },
{
    if path.len() == 0 || path[0] != 3 {
        return AfFact::Unrelated;
    }
    let first: usize = match symbol_at(path, 1) {
        Some((functor, end)) => if bytes_eq(functor, "ECANParam".as_bytes()) {
            end
        } else {
            return AfFact::Unrelated
        },
        None => return AfFact::Unrelated,
    };
    match symbol_at(path, first) {
        Some((name, end)) => if bytes_eq(name, "MAX_AF_SIZE".as_bytes()) {
            read_af_value(path, end, numbers)
        } else {
            AfFact::Unrelated
        },
        None => AfFact::Unrelated,
    }
}

/// The size of the attentional focus: the value of the one `(ECANParam MAX_AF_SIZE value)` fact.
pub fn read_max_af_size(map: &PathMap<u64>, numbers: &Numbers) -> (r: Result<usize, String>)
    ensures
        match r {
            Ok(n) => af_from(map.paths(), numbers@, 0, None) == Ok::<usize, Seq<char>>(n),
            Err(e) => af_from(map.paths(), numbers@, 0, None) == Err::<usize, Seq<char>>(e@),
        },
{
    let mut found: Option<usize> = None;
    let mut i: usize = 0;
    while i < map.val_count()
        invariant
            i <= map.paths().len(),
            af_from(map.paths(), numbers@, i as int, found) == af_from(
                map.paths(),
                numbers@,
                0,
                None,
            ),
        decreases map.paths().len() - i,
    {
        let (path, _) = map.entry(i);
        match read_af(path.as_slice(), numbers) {
            AfFact::Unrelated => {},
            AfFact::Bad(e) => return Err(e),
            AfFact::Size(n) => {
                if found.is_some() {
                    return Err("multiple MAX_AF_SIZE facts found".to_owned());
                }
                found = Some(n);
            },
        }
        i = i + 1;
    }
    match found {
        Some(n) => Ok(n),
        None => Err("MAX_AF_SIZE fact not found".to_owned()),
    }
}

} // verus!
