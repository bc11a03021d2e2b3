//! What numbers and encoded expressions look like: digits, signs, fractions and exponents, network
//! byte order, and the tags of expressions.
use vstd::prelude::*;
use vstd::utf8::encode_utf8;

use crate::expr::{
    byte_tag, encode, encode_all, ground, read, tag_byte, tag_text, ExprTree, Reading, Tag,
};
use crate::text::{
    be_bytes, be_value, dec_text, digits_value, exponent_at, i64_of, int_text, is_exponent,
    is_float, is_mantissa, is_unsigned_float, is_word, lower,
    numeral_digits, numeral_fault, power_of_ten, signed_value, unsigned_value,
};

verus! {

/// Digits, at least one, write a number and nothing else does: one digit its value, and digits
/// behind others ten to their count times what those write, plus what they write.
pub proof fn digits_write_a_number(a: Seq<u8>, b: Seq<u8>)
    requires
        a.len() > 0,
        b.len() > 0,
    ensures
        digits_value(a) is Some <==> forall|i: int| 0 <= i < a.len() ==> 48 <= #[trigger] a[i] <= 57,
        a.len() == 1 && digits_value(a) is Some ==> digits_value(a)->0 == a[0] - 48,
        digits_value(seq![]) is None,
        digits_value(a) is Some && digits_value(b) is Some ==> digits_value(a + b) == Some(
            (digits_value(a)->0 * power_of_ten(b.len()) + digits_value(b)->0) as nat,
        ),
    decreases b.len(),
{
    lemma_all_digits(a);
    lemma_all_digits(b);
    lemma_all_digits(a + b);
    if digits_value(a) is Some && digits_value(b) is Some {
        let v = digits_value(a)->0;
        assert((a + b).drop_last() =~= a + b.drop_last());
        assert((a + b).last() == b.last());
        if b.len() == 1 {
            assert(a + b.drop_last() =~= a);
            assert(power_of_ten(1) == 10 * power_of_ten(0));
        } else {
            digits_write_a_number(a, b.drop_last());
            let w = digits_value(b.drop_last())->0;
            let p = power_of_ten((b.len() - 1) as nat);
            assert((v * p + w) * 10 == v * (10 * p) + w * 10) by (nonlinear_arith);
        }
    }
}

proof fn lemma_all_digits(a: Seq<u8>)
    ensures
        digits_value(a) is Some <==> a.len() > 0 && forall|i: int|
            0 <= i < a.len() ==> 48 <= #[trigger] a[i] <= 57,
    decreases a.len(),
{
    if a.len() > 1 {
        lemma_all_digits(a.drop_last());
        if digits_value(a) is Some {
            assert forall|i: int| 0 <= i < a.len() implies 48 <= #[trigger] a[i] <= 57 by {
                if i < a.len() - 1 {
                    assert(a.drop_last()[i] == a[i]);
                }
            }
        } else if forall|i: int| 0 <= i < a.len() ==> 48 <= #[trigger] a[i] <= 57 {
            assert forall|i: int| 0 <= i < a.drop_last().len() implies 48
                <= #[trigger] a.drop_last()[i] <= 57 by {
                assert(a.drop_last()[i] == a[i]);
            }
        }
    } else if a.len() == 1 {
        assert(a.last() == a[0]);
    }
}

/// Ten to a count is that many tens multiplied.
pub proof fn powers_of_ten(k: nat)
    ensures
        power_of_ten(0) == 1,
        power_of_ten(k + 1) == 10 * power_of_ten(k),
{
}

/// A plus before digits changes nothing, and a minus negates; an unsigned number has no minus.
pub proof fn signs_are_read(d: Seq<u8>)
    requires
        digits_value(d) is Some,
    ensures
        unsigned_value(d) == digits_value(d),
        unsigned_value(seq![43u8] + d) == digits_value(d),
        unsigned_value(seq![45u8] + d) is None,
        signed_value(d) == Some(digits_value(d)->0 as int),
        signed_value(seq![43u8] + d) == Some(digits_value(d)->0 as int),
        signed_value(seq![45u8] + d) == Some(-(digits_value(d)->0 as int)),
        unsigned_value(seq![43u8, 43u8] + d) is None,
        signed_value(seq![45u8, 43u8] + d) is None,
        signed_value(seq![43u8, 45u8] + d) is None,
{
    lemma_all_digits(d);
    lemma_all_digits(seq![45u8] + d);
    lemma_all_digits(seq![43u8] + d);
    assert((seq![43u8] + d).skip(1) =~= d);
    assert((seq![45u8] + d).skip(1) =~= d);
    assert((seq![45u8] + d)[0] == 45);
    assert((seq![43u8] + d)[0] == 43);
    assert((seq![43u8, 43u8] + d).skip(1) =~= seq![43u8] + d);
    assert((seq![45u8, 43u8] + d).skip(1) =~= seq![43u8] + d);
    assert((seq![43u8, 45u8] + d).skip(1) =~= seq![45u8] + d);
}

/// A number is written in digits without a leading zero, and a negative one with a minus before
/// them.
pub proof fn numbers_are_written_in_digits(n: nat, v: int)
    ensures
        n < 10 ==> dec_text(n) == seq![(48 + n) as char],
        n >= 10 ==> dec_text(n) == dec_text(n / 10) + dec_text(n % 10),
        n > 0 ==> dec_text(n)[0] != '0',
        v < 0 ==> int_text(v) == seq!['-'] + dec_text((-v) as nat),
        v >= 0 ==> int_text(v) == dec_text(v as nat),
    decreases n,
{
    if n >= 10 {
        numbers_are_written_in_digits(n / 10, v);
        assert(dec_text(n) =~= dec_text(n / 10) + dec_text(n % 10));
        crate::text::lemma_dec_text_ascii(n / 10);
    }
}

/// Why a text is no number of 64 bits: it is empty, has something that is no digit, or is out of
/// range; what comes first is told.
pub proof fn a_bad_number_is_told(s: Seq<char>, k: int)
    requires
        ({
            let b = encode_utf8(s);
            let d = numeral_digits(b);
            let limit = if b[0] == 45 {
                0x8000_0000_0000_0000int
            } else {
                0x7fff_ffff_ffff_ffffint
            };
            &&& b.len() > 0
            &&& 0 <= k < d.len()
            &&& forall|j: int| 0 <= j < d.len() && j < k ==> 48 <= #[trigger] d[j] <= 57
            &&& forall|j: int| 0 < j <= k ==> digits_value(#[trigger] d.take(j))->0 <= limit
            &&& 48 <= d[k] <= 57 ==> digits_value(d.take(k + 1))->0 > limit
        }),
    ensures
        ({
            let b = encode_utf8(s);
            let d = numeral_digits(b);
            i64_of(s) == Err::<int, Seq<char>>(
                if !(48 <= d[k] <= 57) {
                    "invalid digit found in string"@
                } else if b[0] == 45 {
                    "number too small to fit in target type"@
                } else {
                    "number too large to fit in target type"@
                },
            )
        }),
{
    let b = encode_utf8(s);
    lemma_fault_found(numeral_digits(b), b[0] == 45, 0, k);
}

proof fn lemma_fault_found(d: Seq<u8>, negative: bool, i: int, k: int)
    requires
        0 <= i <= k < d.len(),
        forall|j: int| 0 <= j < d.len() && j < k ==> 48 <= #[trigger] d[j] <= 57,
        forall|j: int|
            0 < j <= k ==> digits_value(#[trigger] d.take(j))->0 <= crate::text::i64_limit(negative),
        48 <= d[k] <= 57 ==> digits_value(d.take(k + 1))->0 > crate::text::i64_limit(negative),
    ensures
        numeral_fault(d, negative, i) == numeral_fault(d, negative, k),
        numeral_fault(d, negative, k) is Some,
    decreases k - i,
{
    if i < k {
        assert(48 <= d[i] <= 57);
        assert(digits_value(d.take(i + 1))->0 <= crate::text::i64_limit(negative));
        lemma_fault_found(d, negative, i + 1, k);
    }
}

/// An empty text is no number, nor is a sign alone.
pub proof fn a_number_has_digits(s: Seq<char>)
    ensures
        encode_utf8(s).len() == 0 ==> i64_of(s) == Err::<int, Seq<char>>(
            "cannot parse integer from empty string"@,
        ),
        encode_utf8(s) == seq![43u8] || encode_utf8(s) == seq![45u8] ==> i64_of(s) == Err::<
            int,
            Seq<char>,
        >("invalid digit found in string"@),
{
}

/// The length before a frame is in network byte order, the highest byte first.
pub proof fn lengths_are_big_endian(n: u32, b: Seq<u8>)
    ensures
        be_bytes(n).len() == 4,
        n == be_bytes(n)[0] * 16777216 + be_bytes(n)[1] * 65536 + be_bytes(n)[2] * 256
            + be_bytes(n)[3],
        be_value(b) == b[0] * 16777216 + b[1] * 65536 + b[2] * 256 + b[3],
{
    crate::text::lemma_be_bytes(n);
}

/// A sign before a number without one changes nothing of whether it is one.
pub proof fn floats_have_one_sign(b: Seq<u8>)
    requires
        b.len() > 0,
        b[0] != 43 && b[0] != 45,
    ensures
        is_float(seq![43u8] + b) == is_float(b),
        is_float(seq![45u8] + b) == is_float(b),
{
    assert((seq![43u8] + b).skip(1) =~= b);
    assert((seq![45u8] + b).skip(1) =~= b);
    assert((seq![45u8] + b)[0] == 45);
    assert((seq![43u8] + b)[0] == 43);
}

/// Whether a byte is a letter of the words `inf`, `infinity` and `nan`, in either case.
pub open spec fn spells(b: Seq<u8>, word: Seq<char>) -> bool {
    b.len() == word.len() && forall|i: int|
        0 <= i < b.len() ==> #[trigger] b[i] == word[i] as u8 || b[i] + 32 == word[i] as u8
}

/// The words for the infinite and for what is no number are numbers, in upper or lower case.
pub proof fn words_are_floats(b: Seq<u8>)
    requires
        spells(b, "inf"@) || spells(b, "infinity"@) || spells(b, "nan"@),
    ensures
        is_float(b),
{
    reveal_strlit("inf");
    reveal_strlit("infinity");
    reveal_strlit("nan");
    assert(b.len() > 0);
    assert(b[0] != 43 && b[0] != 45);
    if spells(b, "inf"@) {
        assert(is_word(b, seq![105, 110, 102]));
    } else if spells(b, "infinity"@) {
        assert(is_word(b, seq![105, 110, 102, 105, 110, 105, 116, 121]));
    } else {
        assert(is_word(b, seq![110, 97, 110]));
    }
}

/// A number that is no word, without an exponent, is digits with at most one point among them, and
/// at least one digit.
pub proof fn a_plain_float_is_digits(b: Seq<u8>)
    requires
        b.len() > 0,
        b[0] != 43 && b[0] != 45,
        forall|i: int|
            0 <= i < b.len() ==> #[trigger] b[i] != 101 && b[i] != 69 && b[i] != 110 && b[i] != 78,
    ensures
        is_float(b) <==> (forall|i: int|
            0 <= i < b.len() ==> 48 <= #[trigger] b[i] <= 57 || b[i] == 46) && (forall|
            i: int,
            j: int,
        |
            0 <= i < j < b.len() ==> #[trigger] b[i] != 46 || #[trigger] b[j] != 46) && (exists|
            i: int,
        |
            0 <= i < b.len() && 48 <= #[trigger] b[i] <= 57),
{
    if is_word(b, seq![105, 110, 102]) || is_word(b, seq![105, 110, 102, 105, 110, 105, 116, 121]) {
        assert(lower(b[1]) == 110);
    }
    if is_word(b, seq![110, 97, 110]) {
        assert(lower(b[0]) == 110);
    }
    if is_float(b) && !is_mantissa(b) {
        let p = choose|p: int| #[trigger] exponent_at(b, p);
        assert(lower(b[p]) == 101);
    }
}

/// An exponent is an `e`, in either case, a sign or none, and digits, behind such a number.
pub proof fn a_float_may_have_an_exponent(m: Seq<u8>, e: u8, x: Seq<u8>)
    requires
        m.len() > 0,
        m[0] != 43 && m[0] != 45,
        e == 101 || e == 69,
        forall|i: int|
            0 <= i < m.len() ==> #[trigger] m[i] != 101 && m[i] != 69 && m[i] != 110 && m[i] != 78,
    ensures
        is_float(m + seq![e] + x) <==> is_float(m) && (digits_value(x) is Some || (x.len() > 0 && (
        x[0] == 43 || x[0] == 45) && digits_value(x.skip(1)) is Some)),
{
    let b = m + seq![e] + x;
    let k = m.len() as int;
    assert(b[0] == m[0]);
    assert(b[k] == e);
    assert(b.take(k) =~= m);
    assert(b.skip(k + 1) =~= x);
    a_plain_float_is_digits(m);
    lemma_all_digits(x);
    if is_word(b, seq![105, 110, 102]) || is_word(b, seq![105, 110, 102, 105, 110, 105, 116, 121])
        || is_word(b, seq![110, 97, 110]) {
        assert(lower(b[k]) == 101);
    }
    if is_mantissa(b) {
        assert(crate::text::is_digit(b[k]) || b[k] == 46);
    }
    assert(is_float(m) == is_mantissa(m)) by {
        if is_unsigned_float(m) && !is_mantissa(m) {
            if is_word(m, seq![105, 110, 102]) || is_word(
                m,
                seq![105, 110, 102, 105, 110, 105, 116, 121],
            ) {
                assert(lower(m[1]) == 110);
            }
            if is_word(m, seq![110, 97, 110]) {
                assert(lower(m[0]) == 110);
            }
            if exists|p: int| #[trigger] exponent_at(m, p) {
                let p = choose|p: int| #[trigger] exponent_at(m, p);
                assert(lower(m[p]) == 101);
            }
        }
    }
    if is_float(b) {
        let p = choose|p: int| #[trigger] exponent_at(b, p);
        assert(exponent_at(b, p));
        if p < k {
            assert(lower(b[p]) == 101);
            assert(b[p] == m[p]);
        }
        if p > k {
            assert(b.take(p)[k] == b[k]);
            assert(crate::text::is_digit(b.take(p)[k]) || b.take(p)[k] == 46);
        }
        assert(p == k);
    }
    if is_mantissa(m) && is_exponent(x) {
        assert(exponent_at(b, k));
    }
}

/// The two high bits of a tag tell its kind, and the six low ones its number: 00 and the arity of a
/// list, 10 and the variable that is meant, 11 and the size of a symbol; a symbol of size zero is a
/// new variable, and 01 is no tag.
pub proof fn tags_tell_kind_and_number(n: u8)
    requires
        n < 64,
    ensures
        tag_byte(Tag::Arity(n)) == n,
        tag_byte(Tag::VarRef(n)) == 128 + n,
        tag_byte(Tag::SymbolSize(n)) == 192 + n,
        tag_byte(Tag::NewVar) == 192,
        byte_tag(n) == Some(Tag::Arity(n)),
        byte_tag((64 + n) as u8) is None,
        byte_tag((128 + n) as u8) == Some(Tag::VarRef(n)),
        byte_tag((192 + n) as u8) == Some(
            if n == 0 {
                Tag::NewVar
            } else {
                Tag::SymbolSize(n)
            },
        ),
{
}

/// A symbol is its size and its bytes; a list is its arity and its items, one after the other.
pub proof fn expressions_are_laid_out_in_order(b: Seq<u8>, items: Seq<ExprTree>, i: u8)
    requires
        b.len() < 64,
        items.len() < 64,
        i < 64,
    ensures
        encode(ExprTree::NewVar) == seq![192u8],
        encode(ExprTree::VarRef(i)) == seq![(128 + i) as u8],
        encode(ExprTree::Symbol(b)) == seq![(192 + b.len()) as u8] + b,
        encode(ExprTree::List(items)) == seq![items.len() as u8] + items.map_values(
            |t: ExprTree| encode(t),
        ).flatten(),
{
    lemma_flat(items);
}

proof fn lemma_flat(items: Seq<ExprTree>)
    ensures
        encode_all(items) == items.map_values(|t: ExprTree| encode(t)).flatten(),
    decreases items.len(),
{
    let parts = items.map_values(|t: ExprTree| encode(t));
    reveal_with_fuel(Seq::flatten, 1);
    if items.len() > 0 {
        lemma_flat(items.drop_first());
        assert(parts.drop_first() =~= items.drop_first().map_values(|t: ExprTree| encode(t)));
        assert(parts.first() == encode(items[0]));
    }
}

/// An expression is ground where no variable occurs in it, however deep.
pub proof fn ground_is_without_variables(items: Seq<ExprTree>, b: Seq<u8>, i: u8, k: int)
    ensures
        !ground(ExprTree::NewVar),
        !ground(ExprTree::VarRef(i)),
        ground(ExprTree::Symbol(b)),
        0 <= k < items.len() && !ground(items[k]) ==> !ground(ExprTree::List(items)),
        (forall|j: int| 0 <= j < items.len() ==> ground(#[trigger] items[j])) ==> ground(
            ExprTree::List(items),
        ),
{
}

/// A byte that is no tag stops the reading, as does an end that comes too early.
pub proof fn unreadable_bytes_are_told(s: Seq<u8>, off: int)
    requires
        0 <= off,
    ensures
        off >= s.len() ==> read(s, off) is Short,
        off < s.len() && 64 <= s[off] < 128 ==> read(s, off) is Reserved,
        off < s.len() && s[off] > 192 && off + 1 + (s[off] - 192) > s.len() ==> read(s, off)
            is Short,
        off < s.len() && s[off] == 0 ==> read(s, off) == Reading::Tree(
            ExprTree::List(seq![]),
            off + 1,
        ),
{
}

/// A tag is named by its kind, with its number in brackets where it has one.
pub proof fn tags_are_named(i: u8)
    ensures
        tag_text(Tag::NewVar) == "NewVar"@,
        tag_text(Tag::VarRef(i)) == "VarRef("@ + dec_text(i as nat) + ")"@,
        tag_text(Tag::SymbolSize(i)) == "SymbolSize("@ + dec_text(i as nat) + ")"@,
        tag_text(Tag::Arity(i)) == "Arity("@ + dec_text(i as nat) + ")"@,
{
}

} // verus!
