//! Text helpers: decimal numerals, UTF-8 decoding and comparisons.
use vstd::prelude::*;
use vstd::utf8::{
    decode_utf8, encode_utf8, encode_utf8_decode_utf8,
    is_ascii_chars, is_ascii_chars_encode_utf8, valid_utf8,
};

verus! {

/// `String::push`: the character is put at the end.
pub assume_specification[ String::push ](s: &mut String, c: char)
    ensures
        final(s)@ == old(s)@.push(c),
;

/// What `std::str::from_utf8` says of bytes that are not UTF-8.
pub uninterp spec fn utf8_error_text(bytes: Seq<u8>) -> Seq<char>;

/// `str::from_utf8`: the text whose UTF-8 encoding the bytes are, or the text of the error
/// when they are no such encoding.
#[verifier::external_body]
pub(crate) fn string_from_utf8(bytes: &[u8]) -> (r: Result<String, String>)
    ensures
        match r {
            Ok(s) => valid_utf8(bytes@) && s@ == decode_utf8(bytes@),
            Err(e) => !valid_utf8(bytes@) && e@ == utf8_error_text(bytes@),
        },
{
    match std::str::from_utf8(bytes) {
        Ok(s) => Ok(s.to_string()),
        Err(e) => Err(e.to_string()),
    }
}

/// What `String::from_utf8_lossy` makes of bytes that are not UTF-8.
pub uninterp spec fn lossy_text(bytes: Seq<u8>) -> Seq<char>;

/// The text of bytes, with what is not UTF-8 in them replaced.
pub open spec fn readable_text(bytes: Seq<u8>) -> Seq<char> {
    if valid_utf8(bytes) {
        decode_utf8(bytes)
    } else {
        lossy_text(bytes)
    }
}

/// `String::from_utf8_lossy`: valid bytes are decoded; what is made of others depends on the bytes
/// alone.
#[verifier::external_body]
pub(crate) fn lossy(bytes: &[u8]) -> (r: String)
    ensures
        valid_utf8(bytes@) ==> r@ == decode_utf8(bytes@),
        !valid_utf8(bytes@) ==> r@ == lossy_text(bytes@),
{
    String::from_utf8_lossy(bytes).into_owned()
}

/// The quoted, escaped form that `Debug` gives of a string.
pub uninterp spec fn quoted_text(s: Seq<char>) -> Seq<char>;

/// `<str as Debug>::fmt`: the string in quotes, with escapes.
#[verifier::external_body]
pub(crate) fn quoted(s: &str) -> (r: String)
    ensures
        r@ == quoted_text(s@),
{
    format!("{s:?}")
}

pub open spec fn is_digit(b: u8) -> bool {
    48 <= b <= 57
}

/// The number that a run of ASCII digits writes in base ten; `None` for anything else.
pub open spec fn digits_value(b: Seq<u8>) -> Option<nat>
    decreases b.len(),
{
    if b.len() == 0 {
        None
    } else if !is_digit(b.last()) {
        None
    } else if b.len() == 1 {
        Some((b.last() - 48) as nat)
    } else {
        match digits_value(b.drop_last()) {
            Some(v) => Some((v * 10 + (b.last() - 48)) as nat),
            None => None,
        }
    }
}

/// An unsigned numeral: digits, with one `+` allowed before them.
pub open spec fn unsigned_value(b: Seq<u8>) -> Option<nat> {
    if b.len() > 0 && b[0] == 43 {
        digits_value(b.skip(1))
    } else {
        digits_value(b)
    }
}

/// A signed numeral: digits, with one `+` or `-` allowed before them.
pub open spec fn signed_value(b: Seq<u8>) -> Option<int> {
    if b.len() > 0 && b[0] == 45 {
        match digits_value(b.skip(1)) {
            Some(v) => Some(-(v as int)),
            None => None,
        }
    } else {
        match unsigned_value(b) {
            Some(v) => Some(v as int),
            None => None,
        }
    }
}

pub open spec fn digit_char(d: int) -> char {
    (48 + d) as char
}

/// The decimal numeral of a number, without leading zeros.
pub open spec fn dec_text(n: nat) -> Seq<char>
    decreases n,
{
    if n < 10 {
        seq![digit_char(n as int)]
    } else {
        dec_text(n / 10).push(digit_char((n % 10) as int))
    }
}

/// The decimal numeral of an integer, with a `-` before it where it is negative.
pub open spec fn int_text(v: int) -> Seq<char> {
    if v < 0 {
        seq!['-'] + dec_text((-v) as nat)
    } else {
        dec_text(v as nat)
    }
}

/// The bytes of an ASCII text are its characters.
pub open spec fn ascii_bytes(s: Seq<char>) -> Seq<u8> {
    s.map_values(|c: char| c as u8)
}

pub proof fn lemma_ascii_bytes(s: Seq<char>)
    requires
        is_ascii_chars(s),
    ensures
        encode_utf8(s) == ascii_bytes(s),
{
    is_ascii_chars_encode_utf8(s);
    assert(encode_utf8(s) =~= ascii_bytes(s));
}

pub proof fn lemma_dec_text_ascii(n: nat)
    ensures
        is_ascii_chars(dec_text(n)),
        dec_text(n).len() >= 1,
        forall|i: int| 0 <= i < dec_text(n).len() ==> '0' <= #[trigger] dec_text(n)[i] <= '9',
    decreases n,
{
    if n >= 10 {
        lemma_dec_text_ascii(n / 10);
    }
}

/// A 64-bit number has at most twenty digits.
pub proof fn lemma_dec_text_len(n: nat)
    ensures
        n < 10 ==> dec_text(n).len() == 1,
        n <= u64::MAX ==> dec_text(n).len() <= 20,
{
    reveal_with_fuel(dec_text, 20);
}

/// A power of ten.
pub open spec fn power_of_ten(k: nat) -> nat
    decreases k,
{
    if k == 0 {
        1
    } else {
        10 * power_of_ten((k - 1) as nat)
    }
}

pub proof fn lemma_dec_text_digits(n: nat, k: nat)
    requires
        n < power_of_ten(k),
        k >= 1,
    ensures
        dec_text(n).len() <= k,
    decreases k,
{
    if n >= 10 {
        if k == 1 {
            reveal_with_fuel(power_of_ten, 2);
        } else {
            lemma_dec_text_digits(n / 10, (k - 1) as nat);
        }
    }
}

pub proof fn lemma_u128_digits(n: u128)
    ensures
        dec_text(n as nat).len() <= 39,
{
    reveal_with_fuel(power_of_ten, 40);
    lemma_dec_text_digits(n as nat, 39);
}

/// Reading a numeral back gives the number it was made from.
pub proof fn lemma_dec_text_value(n: nat)
    ensures
        digits_value(encode_utf8(dec_text(n))) == Some(n),
        encode_utf8(dec_text(n)) == ascii_bytes(dec_text(n)),
    decreases n,
{
    lemma_dec_text_ascii(n);
    lemma_ascii_bytes(dec_text(n));
    let b = ascii_bytes(dec_text(n));
    if n >= 10 {
        lemma_dec_text_value(n / 10);
        lemma_dec_text_ascii(n / 10);
        assert(b.drop_last() =~= ascii_bytes(dec_text(n / 10)));
        assert(b.last() == 48 + n % 10);
    } else {
        assert(b.last() == 48 + n);
    }
}

/// Reading a signed numeral back gives the integer it was made from.
pub proof fn lemma_int_text_value(v: int)
    ensures
        signed_value(encode_utf8(int_text(v))) == Some(v),
        encode_utf8(int_text(v)) == ascii_bytes(int_text(v)),
{
    if v < 0 {
        let n = (-v) as nat;
        lemma_dec_text_ascii(n);
        lemma_dec_text_value(n);
        let t = int_text(v);
        assert(is_ascii_chars(t)) by {
            assert forall|i: int| 0 <= i < t.len() implies 0 <= #[trigger] t[i] < 128 by {
                if i > 0 {
                    assert(t[i] == dec_text(n)[i - 1]);
                }
            }
        }
        lemma_ascii_bytes(t);
        assert(ascii_bytes(t).skip(1) =~= ascii_bytes(dec_text(n)));
        assert(ascii_bytes(t)[0] == 45);
    } else {
        lemma_dec_text_ascii(v as nat);
        lemma_dec_text_value(v as nat);
        let b = ascii_bytes(dec_text(v as nat));
        assert('0' <= dec_text(v as nat)[0] <= '9');
        assert(b[0] == dec_text(v as nat)[0] as u8);
    }
}

/// The bytes of a text are those of its parts, one behind the other.
pub proof fn lemma_encode_concat(a: Seq<char>, b: Seq<char>)
    ensures
        encode_utf8(a + b) == encode_utf8(a) + encode_utf8(b),
    decreases a.len(),
{
    if a.len() == 0 {
        assert(a + b =~= b);
        assert(encode_utf8(a) + encode_utf8(b) =~= encode_utf8(b));
    } else {
        lemma_encode_concat(a.drop_first(), b);
        assert((a + b).drop_first() =~= a.drop_first() + b);
        assert(encode_utf8(a + b) =~= encode_utf8(a) + encode_utf8(b));
    }
}

/// Two texts are equal exactly when their UTF-8 bytes are.
pub proof fn lemma_text_eq_bytes(a: Seq<char>, b: Seq<char>)
    ensures
        (a == b) <==> (encode_utf8(a) == encode_utf8(b)),
{
    encode_utf8_decode_utf8(a);
    encode_utf8_decode_utf8(b);
}

/// Whether a text writes a floating-point number, by the grammar of `FromStr` for floats: an
/// optional sign, then `inf`, `infinity` or `nan` in any case, or digits with at most one point
/// among them and an optional exponent behind them.
pub open spec fn is_float(b: Seq<u8>) -> bool {
    if b.len() > 0 && (b[0] == 43 || b[0] == 45) {
        is_unsigned_float(b.skip(1))
    } else {
        is_unsigned_float(b)
    }
}

pub open spec fn is_unsigned_float(b: Seq<u8>) -> bool {
    ||| is_word(b, seq![105, 110, 102])
    ||| is_word(b, seq![105, 110, 102, 105, 110, 105, 116, 121])
    ||| is_word(b, seq![110, 97, 110])
    ||| is_mantissa(b)
    ||| exists|p: int| #[trigger] exponent_at(b, p)
}

/// Whether the mantissa ends at `p` with an `e` and an exponent follows.
pub open spec fn exponent_at(b: Seq<u8>, p: int) -> bool {
    &&& 0 <= p < b.len()
    &&& lower(b[p]) == 101
    &&& is_mantissa(b.take(p))
    &&& is_exponent(b.skip(p + 1))
}

pub open spec fn lower(b: u8) -> u8 {
    if 65 <= b <= 90 {
        (b + 32) as u8
    } else {
        b
    }
}

pub open spec fn is_word(b: Seq<u8>, word: Seq<u8>) -> bool {
    b.len() == word.len() && forall|i: int| 0 <= i < b.len() ==> lower(#[trigger] b[i]) == word[i]
}

/// Digits with at most one point among them, and at least one digit.
pub open spec fn is_mantissa(b: Seq<u8>) -> bool {
    &&& forall|i: int| 0 <= i < b.len() ==> is_digit(#[trigger] b[i]) || b[i] == 46
    &&& forall|i: int, j: int|
        0 <= i < j < b.len() ==> !(#[trigger] b[i] == 46 && #[trigger] b[j] == 46)
    &&& exists|i: int| 0 <= i < b.len() && is_digit(#[trigger] b[i])
}

/// Digits behind an optional sign.
pub open spec fn is_exponent(b: Seq<u8>) -> bool {
    if b.len() > 0 && (b[0] == 43 || b[0] == 45) {
        digits_value(b.skip(1)) is Some
    } else {
        digits_value(b) is Some
    }
}

proof fn lemma_digits_some(b: Seq<u8>)
    ensures
        digits_value(b) is Some <==> b.len() > 0 && forall|i: int|
            0 <= i < b.len() ==> is_digit(#[trigger] b[i]),
    decreases b.len(),
{
    if b.len() > 1 {
        let d = b.drop_last();
        lemma_digits_some(d);
        if digits_value(b) is Some {
            assert forall|i: int| 0 <= i < b.len() implies is_digit(#[trigger] b[i]) by {
                if i < d.len() {
                    assert(d[i] == b[i]);
                }
            }
        } else if forall|i: int| 0 <= i < b.len() ==> is_digit(#[trigger] b[i]) {
            assert forall|i: int| 0 <= i < d.len() implies is_digit(#[trigger] d[i]) by {
                assert(d[i] == b[i]);
            }
            assert(is_digit(b[b.len() - 1]));
        }
    } else if b.len() == 1 {
        assert(b.last() == b[0]);
    }
}

pub(crate) fn check_word(b: &[u8], start: usize, word: &[u8]) -> (r: bool)
    requires
        start <= b@.len(),
    ensures
        r == is_word(b@.skip(start as int), word@),
{
    if b.len() - start != word.len() {
        return false;
    }
    let mut i: usize = 0;
    while i < word.len()
        invariant
            start <= b@.len(),
            start + word.len() == b.len(),
            0 <= i <= word@.len(),
            forall|j: int| 0 <= j < i ==> lower(#[trigger] b@.skip(start as int)[j]) == word@[j],
        decreases word@.len() - i,
    {
        let c = b[start + i];
        let l: u8 = if 65 <= c && c <= 90 { c + 32 } else { c };
        assert(b@.skip(start as int)[i as int] == c);
        if l != word[i] {
            return false;
        }
        i = i + 1;
    }
    true
}

/// Whether `b[start..end]` is a mantissa.
pub(crate) fn check_mantissa(b: &[u8], start: usize, end: usize) -> (r: bool)
    requires
        start <= end <= b@.len(),
    ensures
        r == is_mantissa(b@.subrange(start as int, end as int)),
{
    let ghost m = b@.subrange(start as int, end as int);
    let mut point: Option<usize> = None;
    let mut digit: Option<usize> = None;
    let mut i: usize = start;
    while i < end
        invariant
            start <= i <= end <= b@.len(),
            m == b@.subrange(start as int, end as int),
            forall|j: int| 0 <= j < i - start ==> is_digit(#[trigger] m[j]) || m[j] == 46,
            match point {
                Some(p) => start <= p < i && m[p - start] == 46 && forall|j: int|
                    0 <= j < i - start && j != p - start ==> #[trigger] m[j] != 46,
                None => forall|j: int| 0 <= j < i - start ==> #[trigger] m[j] != 46,
            },
            match digit {
                Some(d) => start <= d < i && is_digit(m[d - start]),
                None => forall|j: int| 0 <= j < i - start ==> !is_digit(#[trigger] m[j]),
            },
        decreases end - i,
    {
        let c = b[i];
        assert(m[i - start] == c);
        if c == 46 {
            if let Some(p) = point {
                assert(m[p - start] == 46 && m[i - start] == 46);
                return false;
            }
            point = Some(i);
        } else if 48 <= c && c <= 57 {
            digit = Some(i);
        } else {
            return false;
        }
        i = i + 1;
    }
    proof {
        if let Some(d) = digit {
            assert(is_digit(m[d - start]));
        }
    }
    digit.is_some()
}

/// Whether `b[start..]` is an exponent.
pub(crate) fn check_exponent(b: &[u8], start: usize) -> (r: bool)
    requires
        start <= b@.len(),
    ensures
        r == is_exponent(b@.skip(start as int)),
{
    let first: usize = if start < b.len() && (b[start] == 43 || b[start] == 45) {
        start + 1
    } else {
        start
    };
    let ghost d = b@.skip(first as int);
    proof {
        assert(start < first ==> b@.skip(start as int).skip(1) =~= d);
        lemma_digits_some(d);
    }
    if first >= b.len() {
        return false;
    }
    let mut i: usize = first;
    while i < b.len()
        invariant
            first <= i <= b@.len(),
            d == b@.skip(first as int),
            is_exponent(b@.skip(start as int)) == (digits_value(d) is Some),
            forall|j: int| 0 <= j < i - first ==> is_digit(#[trigger] d[j]),
        decreases b@.len() - i,
    {
        assert(d[i - first] == b@[i as int]);
        if !(48 <= b[i] && b[i] <= 57) {
            proof {
                lemma_digits_some(d);
                assert(!is_digit(d[i - first]));
            }
            return false;
        }
        i = i + 1;
    }
    true
}

/// Whether a text writes a floating-point number.
pub fn check_float(b: &[u8]) -> (r: bool)
    ensures
        r == is_float(b@),
{
    let start: usize = if b.len() > 0 && (b[0] == 43 || b[0] == 45) { 1 } else { 0 };
    let ghost u = b@.skip(start as int);
    assert(start == 0 ==> u =~= b@);
    if check_word(b, start, &[105, 110, 102]) || check_word(
        b,
        start,
        &[105, 110, 102, 105, 110, 105, 116, 121],
    ) || check_word(b, start, &[110, 97, 110]) {
        return true;
    }
    let mut p: usize = start;
    while p < b.len() && b[p] != 101 && b[p] != 69
        invariant
            start <= p <= b@.len(),
            u == b@.skip(start as int),
            forall|j: int| 0 <= j < p - start ==> lower(#[trigger] u[j]) != 101,
        decreases b@.len() - p,
    {
        assert(u[p - start] == b@[p as int]);
        p = p + 1;
    }
    assert(b@.subrange(start as int, p as int) =~= u.take(p - start));
    let m = check_mantissa(b, start, p);
    if p == b.len() {
        proof {
            assert(u.take(p - start) =~= u);
            assert forall|q: int| !#[trigger] exponent_at(u, q) by {
                assert(0 <= q < u.len() ==> lower(u[q]) != 101);
            }
        }
        return m;
    }
    let e = check_exponent(b, p + 1);
    proof {
        assert(u[p - start] == b@[p as int]);
        assert(u.skip(p - start + 1) =~= b@.skip(p + 1));
        assert(!is_mantissa(u));
        assert forall|q: int| #[trigger] exponent_at(u, q) implies q == p - start by {
            if q > p - start {
                assert(u.take(q)[p - start] == u[p - start]);
            } else if q < p - start {
                assert(lower(u[q]) != 101);
            }
        }
        if m && e {
            assert(exponent_at(u, p - start));
        }
    }
    m && e
}

/// Appends the decimal numeral of `n`.
fn push_dec(out: &mut String, n: u128)
    ensures
        final(out)@ == old(out)@ + dec_text(n as nat),
    decreases n,
{
    if n >= 10 {
        push_dec(out, n / 10);
    }
    let d: u8 = (n % 10) as u8;
    out.push((48 + d) as char);
    assert(out@ =~= old(out)@ + dec_text(n as nat));
}

/// The decimal numeral of `n`.
pub fn u64_text(n: u64) -> (r: String)
    ensures
        r@ == dec_text(n as nat),
{
    let mut out = String::new();
    push_dec(&mut out, n as u128);
    assert(out@ =~= dec_text(n as nat));
    out
}

/// The decimal numeral of `v`, signed.
pub fn i128_text(v: i128) -> (r: String)
    ensures
        r@ == int_text(v as int),
{
    let mut out = String::new();
    if v < 0 {
        out.push('-');
        let n: u128 = (-(v + 1)) as u128;
        push_dec(&mut out, n + 1);
    } else {
        push_dec(&mut out, v as u128);
    }
    assert(out@ =~= int_text(v as int));
    out
}

/// The decimal numeral of `v`, signed.
pub fn i64_text(v: i64) -> (r: String)
    ensures
        r@ == int_text(v as int),
{
    i128_text(v as i128)
}

/// The decimal numeral of a `u128`.
pub fn u128_text(n: u128) -> (r: String)
    ensures
        r@ == dec_text(n as nat),
{
    let mut out = String::new();
    push_dec(&mut out, n);
    assert(out@ =~= dec_text(n as nat));
    out
}

/// Whether two byte strings are equal.
pub fn bytes_eq(a: &[u8], b: &[u8]) -> (r: bool)
    ensures
        r == (a@ == b@),
{
    if a.len() != b.len() {
        return false;
    }
    let mut i: usize = 0;
    while i < a.len()
        invariant
            a@.len() == b@.len(),
            0 <= i <= a@.len(),
            forall|j: int| 0 <= j < i ==> a@[j] == b@[j],
        decreases a@.len() - i,
    {
        if a[i] != b[i] {
            return false;
        }
        i = i + 1;
    }
    assert(a@ =~= b@);
    true
}

/// Whether two texts are equal.
pub fn str_eq(a: &str, b: &str) -> (r: bool)
    ensures
        r == (a@ == b@),
{
    proof {
        lemma_text_eq_bytes(a@, b@);
    }
    bytes_eq(a.as_bytes(), b.as_bytes())
}

/// Big-endian bytes of a 32-bit number.
pub open spec fn be_bytes(n: u32) -> Seq<u8> {
    seq![
        (n / 0x100_0000) as u8,
        (n / 0x1_0000 % 0x100) as u8,
        (n / 0x100 % 0x100) as u8,
        (n % 0x100) as u8,
    ]
}

/// The number that four big-endian bytes write.
pub open spec fn be_value(b: Seq<u8>) -> int {
    b[0] * 0x100_0000 + b[1] * 0x1_0000 + b[2] * 0x100 + b[3]
}

pub proof fn lemma_be_bytes(n: u32)
    ensures
        be_value(be_bytes(n)) == n,
{
    let b = be_bytes(n);
    assert(b[0] == n / 0x100_0000);
    assert(b[1] == n / 0x1_0000 % 0x100);
    assert(b[2] == n / 0x100 % 0x100);
    assert(b[3] == n % 0x100);
}

/// The characters of a text.
pub fn chars_of(s: &str) -> (r: Vec<char>)
    ensures
        r@ == s@,
{
    let mut r: Vec<char> = Vec::new();
    for c in it: s.chars()
        invariant
            r@ == it.seq().take(it.index()),
            it.seq() == s@,
    {
        r.push(c);
        assert(it.seq().take(it.index() + 1) =~= it.seq().take(it.index()).push(c));
    }
    assert(s@.take(s@.len() as int) =~= s@);
    r
}

/// The text of some characters of a list.
pub fn text_of_chars(cs: &Vec<char>, from: usize, to: usize) -> (r: String)
    requires
        from <= to <= cs@.len(),
    ensures
        r@ == cs@.subrange(from as int, to as int),
{
    let mut r = String::new();
    let mut i: usize = from;
    while i < to
        invariant
            from <= i <= to <= cs@.len(),
            r@ == cs@.subrange(from as int, i as int),
        decreases to - i,
    {
        r.push(cs[i]);
        i = i + 1;
        assert(r@ =~= cs@.subrange(from as int, i as int));
    }
    r
}

/// `a` followed by `b`.
pub fn concat(a: &str, b: &str) -> (r: String)
    ensures
        r@ == a@ + b@,
{
    let mut out = a.to_owned();
    out.append(b);
    out
}

/// Reads an unsigned decimal numeral; a `+` before the digits is accepted.
/// `None` for an empty or malformed numeral and for a number that does not fit.
pub fn parse_u64(b: &[u8]) -> (r: Option<u64>)
    ensures
        match r {
            Some(v) => unsigned_value(b@) == Some(v as nat),
            None => !(unsigned_value(b@) matches Some(v) && v <= u64::MAX),
        },
{
    let start: usize = if b.len() > 0 && b[0] == 43 { 1 } else { 0 };
    let ghost d = b@.skip(start as int);
    assert(start == 0 ==> d =~= b@);
    if start >= b.len() {
        return None;
    }
    let mut value: u64 = 0;
    let mut i: usize = start;
    while i < b.len()
        invariant
            start <= i <= b@.len(),
            start < b@.len(),
            d == b@.skip(start as int),
            i == start ==> value == 0,
            i > start ==> digits_value(d.take(i - start)) == Some(value as nat),
            unsigned_value(b@) == digits_value(d),
        decreases b@.len() - i,
    {
        let ghost p = d.take(i + 1 - start);
        assert(p.drop_last() =~= d.take(i - start));
        assert(p.last() == b@[i as int]);
        if !(48 <= b[i] && b[i] <= 57) {
            proof {
                assert(digits_value(p) is None);
                lemma_digits_prefix(d, i + 1 - start);
            }
            return None;
        }
        let digit: u64 = (b[i] - 48) as u64;
        assert(digits_value(p) == Some((value * 10 + digit) as nat));
        if value > (u64::MAX - digit) / 10 {
            proof {
                assert(value * 10 + digit > u64::MAX);
                lemma_digits_prefix(d, i + 1 - start);
            }
            return None;
        }
        value = value * 10 + digit;
        i = i + 1;
    }
    assert(d.take(i - start) =~= d);
    Some(value)
}

/// A numeral's value is at least that of any of its prefixes, and it has one only if they do.
pub proof fn lemma_digits_prefix(d: Seq<u8>, n: int)
    requires
        1 <= n <= d.len(),
    ensures
        digits_value(d) is Some ==> digits_value(d.take(n)) is Some && digits_value(d)->0
            >= digits_value(d.take(n))->0,
    decreases d.len(),
{
    if n == d.len() {
        assert(d.take(n) =~= d);
    } else {
        lemma_digits_prefix(d.drop_last(), n);
        assert(d.drop_last().take(n) =~= d.take(n));
    }
}

/// The digits of a signed numeral.
pub open spec fn numeral_digits(b: Seq<u8>) -> Seq<u8> {
    if b.len() > 0 && (b[0] == 43 || b[0] == 45) {
        b.skip(1)
    } else {
        b
    }
}

/// The largest magnitude of an `i64` with or without a minus sign.
pub open spec fn i64_limit(negative: bool) -> nat {
    if negative {
        0x8000_0000_0000_0000
    } else {
        0x7fff_ffff_ffff_ffff
    }
}

/// What is wrong with the first of the digits, from the `i`-th on, that is none or with which the
/// number no longer fits.
pub open spec fn numeral_fault(d: Seq<u8>, negative: bool, i: int) -> Option<Seq<char>>
    decreases d.len() - i,
{
    if i < 0 || i >= d.len() {
        None
    } else if !is_digit(d[i]) {
        Some("invalid digit found in string"@)
    } else if digits_value(d.take(i + 1))->0 > i64_limit(negative) {
        Some(
            if negative {
                "number too small to fit in target type"@
            } else {
                "number too large to fit in target type"@
            },
        )
    } else {
        numeral_fault(d, negative, i + 1)
    }
}

/// The `i64` that a text writes, or what is wrong with the text.
pub open spec fn i64_of(s: Seq<char>) -> Result<int, Seq<char>> {
    let b = encode_utf8(s);
    let d = numeral_digits(b);
    let negative = b.len() > 0 && b[0] == 45;
    if b.len() == 0 {
        Err("cannot parse integer from empty string"@)
    } else if d.len() == 0 {
        Err("invalid digit found in string"@)
    } else {
        match numeral_fault(d, negative, 0) {
            Some(e) => Err(e),
            None => Ok(
                if negative {
                    -(digits_value(d)->0 as int)
                } else {
                    digits_value(d)->0 as int
                },
            ),
        }
    }
}

proof fn lemma_no_fault(d: Seq<u8>, negative: bool, i: int)
    requires
        digits_value(d) is Some,
        digits_value(d)->0 <= i64_limit(negative),
        0 <= i <= d.len(),
    ensures
        numeral_fault(d, negative, i) is None,
    decreases d.len() - i,
{
    if i < d.len() {
        lemma_digits_some(d);
        lemma_digits_prefix(d, i + 1);
        lemma_no_fault(d, negative, i + 1);
    }
}

/// A text is read as an `i64` exactly if it is a signed numeral whose number fits.
pub proof fn i64_is_signed_value(s: Seq<char>)
    ensures
        match signed_value(encode_utf8(s)) {
            Some(v) => if i64::MIN <= v <= i64::MAX {
                i64_of(s) == Ok::<int, Seq<char>>(v)
            } else {
                i64_of(s) is Err
            },
            None => i64_of(s) is Err,
        },
{
    let b = encode_utf8(s);
    let d = numeral_digits(b);
    let negative = b.len() > 0 && b[0] == 45;
    if digits_value(d) is Some {
        if digits_value(d)->0 <= i64_limit(negative) {
            lemma_no_fault(d, negative, 0);
        } else {
            lemma_fault(d, negative, 0);
        }
    } else if d.len() > 0 {
        lemma_fault(d, negative, 0);
    }
}

proof fn lemma_fault(d: Seq<u8>, negative: bool, i: int)
    requires
        0 <= i <= d.len(),
        d.len() > 0,
        digits_value(d) is None || digits_value(d)->0 > i64_limit(negative),
        forall|k: int| 0 <= k < i ==> is_digit(#[trigger] d[k]),
        i > 0 ==> digits_value(d.take(i))->0 <= i64_limit(negative),
    ensures
        numeral_fault(d, negative, i) is Some,
    decreases d.len() - i,
{
    if i == d.len() {
        assert(d.take(i) =~= d);
        lemma_digits_some(d);
    } else if is_digit(d[i]) && digits_value(d.take(i + 1))->0 <= i64_limit(negative) {
        lemma_fault(d, negative, i + 1);
    }
}

/// Reads a signed decimal numeral as an `i64`.
pub fn i64_from_text(s: &str) -> (r: Result<i64, String>)
    ensures
        match r {
            Ok(v) => i64_of(s@) == Ok::<int, Seq<char>>(v as int),
            Err(e) => i64_of(s@) == Err::<int, Seq<char>>(e@),
        },
{
    let b = s.as_bytes();
    if b.len() == 0 {
        return Err("cannot parse integer from empty string".to_owned());
    }
    let negative: bool = b[0] == 45;
    let start: usize = if b[0] == 43 || b[0] == 45 { 1 } else { 0 };
    let ghost d = b@.skip(start as int);
    assert(d =~= numeral_digits(b@));
    if start >= b.len() {
        return Err("invalid digit found in string".to_owned());
    }
    let limit: u64 = if negative { 0x8000_0000_0000_0000 } else { 0x7fff_ffff_ffff_ffff };
    let mut value: u64 = 0;
    let mut i: usize = start;
    while i < b.len()
        invariant
            start <= i <= b@.len(),
            start < b@.len(),
            d == b@.skip(start as int),
            limit == i64_limit(negative),
            i == start ==> value == 0,
            i > start ==> digits_value(d.take(i - start)) == Some(value as nat),
            value <= limit,
            d == numeral_digits(b@),
            b@ == encode_utf8(s@),
            negative == (b@[0] == 45),
            numeral_fault(d, negative, 0) == numeral_fault(d, negative, i - start),
        decreases b@.len() - i,
    {
        let ghost p = d.take(i + 1 - start);
        assert(p.drop_last() =~= d.take(i - start));
        assert(p.last() == b@[i as int]);
        assert(d[i - start] == b@[i as int]);
        if !(48 <= b[i] && b[i] <= 57) {
            return Err("invalid digit found in string".to_owned());
        }
        let digit: u64 = (b[i] - 48) as u64;
        assert(digits_value(p) == Some((value * 10 + digit) as nat));
        if value > (limit - digit) / 10 {
            assert(value * 10 + digit > limit);
            if negative {
                return Err("number too small to fit in target type".to_owned());
            }
            return Err("number too large to fit in target type".to_owned());
        }
        value = value * 10 + digit;
        i = i + 1;
    }
    assert(d.take(i - start) =~= d);
    if negative {
        if value == 0x8000_0000_0000_0000 {
            Ok(i64::MIN)
        } else {
            Ok(-(value as i64))
        }
    } else {
        Ok(value as i64)
    }
}

} // verus!
