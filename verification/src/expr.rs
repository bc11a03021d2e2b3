//! Expressions and their byte encoding.
//!
//! An expression is a variable, a reference to an earlier variable, a symbol of 1 to 63 bytes, or
//! a list of up to 63 expressions. Each item starts with one tag byte.
use vstd::prelude::*;

use crate::text::{concat, dec_text, u64_text};

verus! {

/// The item that a tag byte announces.
#[derive(Clone, Copy, Debug, PartialEq, Eq, Structural)]
pub enum Tag {
    NewVar,
    VarRef(u8),
    SymbolSize(u8),
    Arity(u8),
}

/// Tag bytes hold six bits of payload.
pub open spec fn tag_fits(tag: Tag) -> bool {
    match tag {
        Tag::NewVar => true,
        Tag::VarRef(i) => i < 64,
        Tag::SymbolSize(n) => n < 64,
        Tag::Arity(a) => a < 64,
    }
}

pub open spec fn tag_byte(tag: Tag) -> u8 {
    match tag {
        Tag::NewVar => 0xC0,
        Tag::VarRef(i) => (0x80 + i) as u8,
        Tag::SymbolSize(n) => (0xC0 + n) as u8,
        Tag::Arity(a) => a,
    }
}

/// The item of a tag byte; the bytes `0x40` to `0x7F` announce none.
pub open spec fn byte_tag(b: u8) -> Option<Tag> {
    if b < 0x40 {
        Some(Tag::Arity(b))
    } else if b < 0x80 {
        None
    } else if b < 0xC0 {
        Some(Tag::VarRef((b - 0x80) as u8))
    } else if b == 0xC0 {
        Some(Tag::NewVar)
    } else {
        Some(Tag::SymbolSize((b - 0xC0) as u8))
    }
}

/// The byte that announces an item.
pub fn item_byte(tag: Tag) -> (r: u8)
    requires
        tag_fits(tag),
    ensures
        r == tag_byte(tag),
{
    match tag {
        Tag::NewVar => 0xC0,
        Tag::VarRef(i) => 0x80 + i,
        Tag::SymbolSize(n) => 0xC0 + n,
        Tag::Arity(a) => a,
    }
}

/// The item that a byte announces. The reserved bytes are left out.
pub fn byte_item(b: u8) -> (r: Tag)
    requires
        byte_tag(b) is Some,
    ensures
        byte_tag(b) == Some(r),
{
    if b < 0x40 {
        Tag::Arity(b)
    } else if b < 0xC0 {
        Tag::VarRef(b - 0x80)
    } else if b == 0xC0 {
        Tag::NewVar
    } else {
        Tag::SymbolSize(b - 0xC0)
    }
}

/// Decoding undoes encoding, but for a symbol of no bytes, whose tag byte is that of a variable.
pub proof fn tag_roundtrip(tag: Tag)
    requires
        tag_fits(tag),
        tag != Tag::SymbolSize(0),
    ensures
        byte_tag(tag_byte(tag)) == Some(tag),
{
}

pub open spec fn tag_text(tag: Tag) -> Seq<char> {
    match tag {
        Tag::NewVar => "NewVar"@,
        Tag::VarRef(i) => "VarRef("@ + dec_text(i as nat) + ")"@,
        Tag::SymbolSize(n) => "SymbolSize("@ + dec_text(n as nat) + ")"@,
        Tag::Arity(a) => "Arity("@ + dec_text(a as nat) + ")"@,
    }
}

/// The name of an item, as messages show it.
pub fn tag_name(tag: Tag) -> (r: String)
    ensures
        r@ == tag_text(tag),
{
    let (name, n): (&str, u8) = match tag {
        Tag::NewVar => return "NewVar".to_owned(),
        Tag::VarRef(i) => ("VarRef(", i),
        Tag::SymbolSize(n) => ("SymbolSize(", n),
        Tag::Arity(a) => ("Arity(", a),
    };
    let mut out = concat(name, u64_text(n as u64).as_str());
    out.append(")");
    out
}

/// An expression as a tree.
#[derive(Debug, PartialEq, Eq)]
pub enum Expr {
    NewVar,
    VarRef(u8),
    Symbol(Vec<u8>),
    List(Vec<Expr>),
}

/// The mathematical value of an expression.
pub ghost enum ExprTree {
    NewVar,
    VarRef(u8),
    Symbol(Seq<u8>),
    List(Seq<ExprTree>),
}

impl Expr {
    pub open spec fn view(&self) -> ExprTree
        decreases self,
    {
        match self {
            Expr::NewVar => ExprTree::NewVar,
            Expr::VarRef(i) => ExprTree::VarRef(*i),
            Expr::Symbol(b) => ExprTree::Symbol(b@),
            Expr::List(items) => ExprTree::List(exprs_view(items@)),
        }
    }
}

pub open spec fn exprs_view(items: Seq<Expr>) -> Seq<ExprTree>
    decreases items,
{
    Seq::new(
        items.len(),
        |i: int|
            if 0 <= i < items.len() {
                items[i].view()
            } else {
                ExprTree::NewVar
            },
    )
}

/// The encoding of an expression.
pub open spec fn encode(t: ExprTree) -> Seq<u8>
    decreases t,
{
    match t {
        ExprTree::NewVar => seq![tag_byte(Tag::NewVar)],
        ExprTree::VarRef(i) => seq![tag_byte(Tag::VarRef(i))],
        ExprTree::Symbol(b) => seq![tag_byte(Tag::SymbolSize(b.len() as u8))] + b,
        ExprTree::List(items) => seq![tag_byte(Tag::Arity(items.len() as u8))] + encode_all(items),
    }
}

pub open spec fn encode_all(items: Seq<ExprTree>) -> Seq<u8>
    decreases items,
{
    if items.len() == 0 {
        seq![]
    } else {
        encode(items[0]) + encode_all(items.drop_first())
    }
}

/// Whether a tree can be encoded and read back: the payloads fit their tag bytes and no symbol is
/// empty.
pub open spec fn encodable(t: ExprTree) -> bool
    decreases t,
{
    match t {
        ExprTree::NewVar => true,
        ExprTree::VarRef(i) => i < 64,
        ExprTree::Symbol(b) => 1 <= b.len() < 64,
        ExprTree::List(items) => items.len() < 64 && all_encodable(items),
    }
}

pub open spec fn all_encodable(items: Seq<ExprTree>) -> bool
    decreases items,
{
    forall|i: int| 0 <= i < items.len() ==> encodable(#[trigger] items[i])
}

/// Whether the payloads of a tree fit their tag bytes. An empty symbol does, though its encoding
/// reads back as a variable.
pub open spec fn fits(t: ExprTree) -> bool
    decreases t,
{
    match t {
        ExprTree::NewVar => true,
        ExprTree::VarRef(i) => i < 64,
        ExprTree::Symbol(b) => b.len() < 64,
        ExprTree::List(items) => items.len() < 64 && all_fit(items),
    }
}

pub open spec fn all_fit(items: Seq<ExprTree>) -> bool
    decreases items,
{
    forall|i: int| 0 <= i < items.len() ==> fits(#[trigger] items[i])
}

/// Whether no variable stands anywhere in a tree.
pub open spec fn ground(t: ExprTree) -> bool
    decreases t,
{
    match t {
        ExprTree::NewVar => false,
        ExprTree::VarRef(_) => false,
        ExprTree::Symbol(_) => true,
        ExprTree::List(items) => all_ground(items),
    }
}

pub open spec fn all_ground(items: Seq<ExprTree>) -> bool
    decreases items,
{
    forall|i: int| 0 <= i < items.len() ==> ground(#[trigger] items[i])
}

/// What stands at an offset of a byte string: an expression and the offset behind it, too few
/// bytes for one, or a reserved byte where a tag should be.
pub ghost enum Reading {
    Tree(ExprTree, int),
    Short,
    Reserved,
}

/// The same for a number of expressions one behind the other.
pub ghost enum ListReading {
    Trees(Seq<ExprTree>, int),
    Short,
    Reserved,
}

pub open spec fn read(s: Seq<u8>, off: int) -> Reading
    decreases s.len() - off, 0int,
{
    if off < 0 || off >= s.len() {
        Reading::Short
    } else {
        match byte_tag(s[off]) {
            None => Reading::Reserved,
            Some(Tag::NewVar) => Reading::Tree(ExprTree::NewVar, off + 1),
            Some(Tag::VarRef(i)) => Reading::Tree(ExprTree::VarRef(i), off + 1),
            Some(Tag::SymbolSize(n)) => if off + 1 + n <= s.len() {
                Reading::Tree(ExprTree::Symbol(s.subrange(off + 1, off + 1 + n)), off + 1 + n)
            } else {
                Reading::Short
            },
            Some(Tag::Arity(a)) => match read_list(s, off + 1, a as nat) {
                ListReading::Trees(items, end) => Reading::Tree(ExprTree::List(items), end),
                ListReading::Short => Reading::Short,
                ListReading::Reserved => Reading::Reserved,
            },
        }
    }
}

pub open spec fn read_list(s: Seq<u8>, off: int, n: nat) -> ListReading
    decreases s.len() - off, 1 + n,
{
    if n == 0 {
        ListReading::Trees(seq![], off)
    } else if off < 0 || off >= s.len() {
        ListReading::Short
    } else {
        match read(s, off) {
            Reading::Tree(t, mid) => if off < mid <= s.len() {
                prepend(seq![t], read_list(s, mid, (n - 1) as nat))
            } else {
                ListReading::Short
            },
            Reading::Short => ListReading::Short,
            Reading::Reserved => ListReading::Reserved,
        }
    }
}

pub open spec fn prepend(front: Seq<ExprTree>, rest: ListReading) -> ListReading {
    match rest {
        ListReading::Trees(items, end) => ListReading::Trees(front + items, end),
        _ => rest,
    }
}

/// Reading the encoding of an expression, whatever stands behind it, gives the expression back
/// and ends where the encoding ends.
pub proof fn read_of_encode(s: Seq<u8>, off: int, t: ExprTree)
    requires
        encodable(t),
        0 <= off,
        off + encode(t).len() <= s.len(),
        s.subrange(off, off + encode(t).len()) == encode(t),
    ensures
        read(s, off) == Reading::Tree(t, off + encode(t).len()),
        encode(t).len() >= 1,
    decreases t,
{
    let e = encode(t);
    assert(s[off] == s.subrange(off, off + e.len())[0]);
    match t {
        ExprTree::NewVar => {},
        ExprTree::VarRef(i) => {},
        ExprTree::Symbol(b) => {
            assert(e.subrange(1, e.len() as int) =~= b);
            assert(s.subrange(off + 1, off + 1 + b.len()) =~= b) by {
                assert forall|j: int| 0 <= j < b.len() implies s[off + 1 + j] == b[j] by {
                    assert(s.subrange(off, off + e.len())[1 + j] == e[1 + j]);
                }
            }
        },
        ExprTree::List(items) => {
            assert(s.subrange(off + 1, off + 1 + encode_all(items).len()) =~= encode_all(items)) by {
                assert forall|j: int| 0 <= j < encode_all(items).len() implies s[off + 1 + j]
                    == encode_all(items)[j] by {
                    assert(s.subrange(off, off + e.len())[1 + j] == e[1 + j]);
                }
            }
            read_list_of_encode(s, off + 1, items);
        },
    }
}

/// The same for expressions one behind the other.
pub proof fn read_list_of_encode(s: Seq<u8>, off: int, items: Seq<ExprTree>)
    requires
        all_encodable(items),
        0 <= off,
        off + encode_all(items).len() <= s.len(),
        s.subrange(off, off + encode_all(items).len()) == encode_all(items),
    ensures
        read_list(s, off, items.len()) == ListReading::Trees(items, off + encode_all(items).len()),
    decreases items,
{
    if items.len() == 0 {
        assert(items =~= seq![]);
    } else {
        let first = encode(items[0]);
        let rest = items.drop_first();
        assert(encodable(items[0]));
        assert(all_encodable(rest)) by {
            assert forall|i: int| 0 <= i < rest.len() implies encodable(#[trigger] rest[i]) by {
                assert(rest[i] == items[i + 1]);
            }
        }
        let all = encode_all(items);
        assert(s.subrange(off, off + first.len()) =~= first) by {
            assert forall|j: int| 0 <= j < first.len() implies s[off + j] == first[j] by {
                assert(s.subrange(off, off + all.len())[j] == all[j]);
            }
        }
        let mid = off + first.len();
        assert(s.subrange(mid, mid + encode_all(rest).len()) =~= encode_all(rest)) by {
            assert forall|j: int| 0 <= j < encode_all(rest).len() implies s[mid + j]
                == encode_all(rest)[j] by {
                assert(s.subrange(off, off + all.len())[first.len() + j] == all[first.len() + j]);
            }
        }
        read_of_encode(s, off, items[0]);
        read_list_of_encode(s, mid, rest);
        assert(seq![items[0]] + rest =~= items);
    }
}

/// What a reading returns is encodable, and the bytes read are its encoding.
pub proof fn read_is_encoding(s: Seq<u8>, off: int)
    ensures
        read(s, off) matches Reading::Tree(t, end) ==> {
            &&& 0 <= off < end <= s.len()
            &&& encodable(t)
            &&& s.subrange(off, end) == encode(t)
        },
    decreases s.len() - off, 0int,
{
    if 0 <= off < s.len() {
        match byte_tag(s[off]) {
            Some(Tag::SymbolSize(n)) => {
                if off + 1 + n <= s.len() {
                    let b = s.subrange(off + 1, off + 1 + n);
                    assert(s.subrange(off, off + 1 + n) =~= seq![s[off]] + b);
                }
            },
            Some(Tag::Arity(a)) => {
                read_list_is_encoding(s, off + 1, a as nat);
                if let Reading::Tree(t, end) = read(s, off) {
                    assert(s.subrange(off, end) =~= seq![s[off]] + s.subrange(off + 1, end));
                }
            },
            Some(_) => {
                assert(s.subrange(off, off + 1) =~= seq![s[off]]);
            },
            None => {},
        }
    }
}

proof fn read_list_is_encoding(s: Seq<u8>, off: int, n: nat)
    requires
        0 <= off <= s.len(),
    ensures
        read_list(s, off, n) matches ListReading::Trees(items, end) ==> {
            &&& off <= end <= s.len()
            &&& items.len() == n
            &&& all_encodable(items)
            &&& s.subrange(off, end) == encode_all(items)
        },
    decreases s.len() - off, 1 + n,
{
    if n == 0 {
        assert(s.subrange(off, off) =~= seq![]);
    } else if off < s.len() {
        read_is_encoding(s, off);
        if let Reading::Tree(t, mid) = read(s, off) {
            read_list_is_encoding(s, mid, (n - 1) as nat);
            if let ListReading::Trees(rest, end) = read_list(s, mid, (n - 1) as nat) {
                let items = seq![t] + rest;
                assert(items.drop_first() =~= rest);
                assert(s.subrange(off, end) =~= s.subrange(off, mid) + s.subrange(mid, end));
                assert(all_encodable(items)) by {
                    assert forall|i: int| 0 <= i < items.len() implies encodable(
                        #[trigger] items[i],
                    ) by {
                        if i > 0 {
                            assert(items[i] == rest[i - 1]);
                        }
                    }
                }
            }
        }
    }
}

/// Two expressions with the same encoding are the same expression.
pub proof fn encode_injective(a: ExprTree, b: ExprTree)
    requires
        encodable(a),
        encodable(b),
        encode(a) == encode(b),
    ensures
        a == b,
{
    let s = encode(a);
    assert(s.subrange(0, s.len() as int) =~= s);
    read_of_encode(s, 0, a);
    read_of_encode(s, 0, b);
}

pub proof fn lemma_encode_all_push(items: Seq<ExprTree>, t: ExprTree)
    ensures
        encode_all(items.push(t)) == encode_all(items) + encode(t),
    decreases items.len(),
{
    if items.len() == 0 {
        let rest = items.push(t).drop_first();
        assert(encode_all(rest) =~= seq![]);
        assert(encode_all(items.push(t)) =~= encode(t));
        assert(encode_all(items) + encode(t) =~= encode(t));
    } else {
        lemma_encode_all_push(items.drop_first(), t);
        assert(items.push(t).drop_first() =~= items.drop_first().push(t));
        assert(encode_all(items.push(t)) =~= encode_all(items) + encode(t));
    }
}

pub proof fn lemma_encode_all_take(items: Seq<ExprTree>, k: int)
    requires
        0 <= k < items.len(),
    ensures
        encode_all(items.take(k + 1)) == encode_all(items.take(k)) + encode(items[k]),
        encode_all(items.take(k + 1)).len() <= encode_all(items).len(),
    decreases items.len() - k,
{
    lemma_encode_all_push(items.take(k), items[k]);
    assert(items.take(k).push(items[k]) =~= items.take(k + 1));
    if k + 1 < items.len() {
        lemma_encode_all_take(items, k + 1);
    } else {
        assert(items.take(k + 1) =~= items);
    }
}

impl Expr {
    /// The tag byte's item at the start of the expression.
    pub open spec fn tag_of(t: ExprTree) -> Tag {
        match t {
            ExprTree::NewVar => Tag::NewVar,
            ExprTree::VarRef(i) => Tag::VarRef(i),
            ExprTree::Symbol(b) => Tag::SymbolSize(b.len() as u8),
            ExprTree::List(items) => Tag::Arity(items.len() as u8),
        }
    }

    /// The item that the expression starts with.
    pub fn tag(&self) -> (r: Tag)
        ensures
            r == Expr::tag_of(self@),
    {
        match self {
            Expr::NewVar => Tag::NewVar,
            Expr::VarRef(i) => Tag::VarRef(*i),
            Expr::Symbol(b) => Tag::SymbolSize(b.len() as u8),
            Expr::List(items) => Tag::Arity(items.len() as u8),
        }
    }

    /// Whether no variable stands anywhere in the expression.
    pub fn is_ground(&self) -> (r: bool)
        ensures
            r == ground(self@),
        decreases self,
    {
        match self {
            Expr::NewVar => false,
            Expr::VarRef(_) => false,
            Expr::Symbol(_) => true,
            Expr::List(items) => {
                let ghost trees = exprs_view(items@);
                let mut i: usize = 0;
                while i < items.len()
                    invariant
                        i <= items@.len(),
                        trees == exprs_view(items@),
                        self@ == ExprTree::List(trees),
                        decreases_to!(self => items@),
                        forall|k: int| 0 <= k < i ==> ground(#[trigger] trees[k]),
                    decreases items@.len() - i,
                {
                    assert(trees[i as int] == items@[i as int]@);
                    if !items[i].is_ground() {
                        return false;
                    }
                    i = i + 1;
                }
                true
            },
        }
    }

    /// The number of bytes of the encoding.
    pub fn encoded_len(&self) -> (r: usize)
        requires
            encode(self@).len() <= usize::MAX,
        ensures
            r == encode(self@).len(),
        decreases self,
    {
        match self {
            Expr::NewVar => 1,
            Expr::VarRef(_) => 1,
            Expr::Symbol(b) => 1 + b.len(),
            Expr::List(items) => {
                let n = items.len();
                proof {
                    assert(exprs_view(items@).take(n as int) =~= exprs_view(items@));
                }
                child_offset(items, n)
            },
        }
    }
}

/// The offset of the `k`-th item of a list within the list's encoding.
pub open spec fn offset_of(items: Seq<ExprTree>, k: int) -> nat {
    1 + encode_all(items.take(k)).len()
}

/// Where the `k`-th item of a list starts, counted from the list's tag byte.
pub fn child_offset(items: &Vec<Expr>, k: usize) -> (r: usize)
    requires
        k <= items@.len(),
        1 + encode_all(exprs_view(items@)).len() <= usize::MAX,
    ensures
        r == offset_of(exprs_view(items@), k as int),
    decreases items,
{
    let ghost ts = exprs_view(items@);
    let mut off: usize = 1;
    let mut i: usize = 0;
    assert(encode_all(ts.take(0)) =~= seq![]);
    while i < k
        invariant
            0 <= i <= k <= items@.len(),
            ts == exprs_view(items@),
            off == offset_of(ts, i as int),
            1 + encode_all(ts).len() <= usize::MAX,
        decreases k - i,
    {
        proof {
            lemma_encode_all_take(ts, i as int);
        }
        off = off + items[i].encoded_len();
        i = i + 1;
    }
    off
}

/// What `decode` finds.
pub enum Decoded {
    Tree(Expr, usize),
    Short,
    Reserved,
}

impl Decoded {
    pub open spec fn view(&self) -> Reading {
        match self {
            Decoded::Tree(e, end) => Reading::Tree(e@, *end as int),
            Decoded::Short => Reading::Short,
            Decoded::Reserved => Reading::Reserved,
        }
    }
}

/// Reads the expression at an offset.
pub fn decode(s: &[u8], off: usize) -> (r: Decoded)
    ensures
        r@ == read(s@, off as int),
    decreases s@.len() - off,
{
    if off >= s.len() {
        return Decoded::Short;
    }
    let b = s[off];
    if 0x40 <= b && b < 0x80 {
        return Decoded::Reserved;
    }
    match byte_item(b) {
        Tag::NewVar => Decoded::Tree(Expr::NewVar, off + 1),
        Tag::VarRef(i) => Decoded::Tree(Expr::VarRef(i), off + 1),
        Tag::SymbolSize(n) => {
            if s.len() - off - 1 < n as usize {
                return Decoded::Short;
            }
            let end: usize = off + 1 + n as usize;
            let symbol = vstd::slice::slice_to_vec(vstd::slice::slice_subrange(s, off + 1, end));
            Decoded::Tree(Expr::Symbol(symbol), end)
        },
        Tag::Arity(a) => {
            let mut items: Vec<Expr> = Vec::new();
            let mut cur: usize = off + 1;
            let mut k: u8 = 0;
            while k < a
                invariant
                    off < s@.len(),
                    byte_tag(s@[off as int]) == Some(Tag::Arity(a)),
                    off + 1 <= cur <= s@.len(),
                    k <= a,
                    prepend(exprs_view(items@), read_list(s@, cur as int, (a - k) as nat)) == read_list(
                        s@,
                        off + 1,
                        a as nat,
                    ),
                decreases a - k,
            {
                proof {
                    read_is_encoding(s@, cur as int);
                }
                let ghost before = items@;
                match decode(s, cur) {
                    Decoded::Short => return Decoded::Short,
                    Decoded::Reserved => return Decoded::Reserved,
                    Decoded::Tree(e, end) => {
                        items.push(e);
                        proof {
                            let rest = read_list(s@, end as int, (a - k - 1) as nat);
                            assert(exprs_view(items@) =~= exprs_view(before) + seq![e@]);
                            if let ListReading::Trees(ts, _) = rest {
                                assert(exprs_view(before) + (seq![e@] + ts) =~= exprs_view(items@) + ts);
                            }
                        }
                        cur = end;
                    },
                }
                k = k + 1;
            }
            assert(exprs_view(items@) + seq![] =~= exprs_view(items@));
            Decoded::Tree(Expr::List(items), cur)
        },
    }
}

} // verus!
