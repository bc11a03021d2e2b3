//! Floating-point numbers as their texts: which of them are finite, and how JSON writes them.
use vstd::prelude::*;
use vstd::utf8::encode_utf8;

use crate::paths::{compare_paths, path_lt, path_lt_irreflexive, path_lt_transitive, PathOrder};
use crate::text::{
    check_exponent, check_mantissa, digits_value, exponent_at, is_digit, is_exponent, is_float,
    is_mantissa, is_word, lossy, lower, readable_text, signed_value,
};

verus! {

/// The digits of the least number that is too large for a 64-bit float: half way between the
/// largest finite one and the next power of two, 2^1024 - 2^970.
pub const TOO_LARGE: &'static str =
    "179769313486231580793728971405303415079934132710037826936173778980444968292764750946649017977587207096330286416692887910946555547851940402630657488671505820681908902000708383676273854845817711531764475730270069855571366959622842914819860834936475292719074168444365510704342711559699508093042880177904174497792";

/// The number of those digits.
pub const TOO_LARGE_PLACES: i128 = 309;

/// A numeral without its sign.
pub open spec fn unsigned_part(b: Seq<u8>) -> Seq<u8> {
    if b.len() > 0 && (b[0] == 43 || b[0] == 45) {
        b.skip(1)
    } else {
        b
    }
}

/// The position of the exponent's letter, or the end, from `i` on.
pub open spec fn mantissa_end(u: Seq<u8>, i: int) -> int
    decreases u.len() - i,
{
    if 0 <= i < u.len() && lower(u[i]) != 101 {
        mantissa_end(u, i + 1)
    } else {
        i
    }
}

pub open spec fn mantissa(b: Seq<u8>) -> Seq<u8> {
    let u = unsigned_part(b);
    u.take(mantissa_end(u, 0))
}

/// Whether a text writes a number in decimal digits, with or without an exponent.
pub open spec fn is_decimal(b: Seq<u8>) -> bool {
    let u = unsigned_part(b);
    let p = mantissa_end(u, 0);
    is_mantissa(mantissa(b)) && (p < u.len() ==> is_exponent(u.skip(p + 1)))
}

/// The exponent that a numeral writes; none is zero.
pub open spec fn exponent(b: Seq<u8>) -> int {
    let u = unsigned_part(b);
    let p = mantissa_end(u, 0);
    if p < u.len() {
        signed_value(u.skip(p + 1))->0
    } else {
        0
    }
}

/// The position of the point, or the end, from `i` on.
pub open spec fn point_of(m: Seq<u8>, i: int) -> int
    decreases m.len() - i,
{
    if 0 <= i < m.len() && m[i] != 46 {
        point_of(m, i + 1)
    } else {
        i
    }
}

/// The position of the first digit that is not zero, or the end, from `i` on.
pub open spec fn lead_of(m: Seq<u8>, i: int) -> int
    decreases m.len() - i,
{
    if 0 <= i < m.len() && (m[i] == 46 || m[i] == 48) {
        lead_of(m, i + 1)
    } else {
        i
    }
}

/// The digits from `i` on, without the point.
pub open spec fn digits_from(m: Seq<u8>, i: int) -> Seq<u8>
    decreases m.len() - i,
{
    if i < 0 || i >= m.len() {
        seq![]
    } else if m[i] == 46 {
        digits_from(m, i + 1)
    } else {
        seq![m[i]] + digits_from(m, i + 1)
    }
}

/// How many places a mantissa has before the point, from its first digit that is not zero on. A
/// number below one has none, or less than none.
pub open spec fn places(m: Seq<u8>) -> int {
    let point = point_of(m, 0);
    let lead = lead_of(m, 0);
    if lead < point {
        point - lead
    } else {
        point - lead + 1
    }
}

/// Digits without the zeros at their end.
pub open spec fn trimmed(d: Seq<u8>) -> Seq<u8>
    decreases d.len(),
{
    if d.len() > 0 && d.last() == 48 {
        trimmed(d.drop_last())
    } else {
        d
    }
}

/// The digits of a decimal numeral from the first to the last one that is not zero. Zero has none.
pub open spec fn significant(b: Seq<u8>) -> Seq<u8> {
    let m = mantissa(b);
    trimmed(digits_from(m, lead_of(m, 0)))
}

/// How many of the significant digits stand before the point once the exponent is written out.
pub open spec fn scale(b: Seq<u8>) -> int {
    places(mantissa(b)) + exponent(b)
}

/// Whether a decimal numeral is so large that the nearest float is infinite.
pub open spec fn overflows(b: Seq<u8>) -> bool {
    let d = significant(b);
    let k = scale(b);
    d.len() > 0 && (k > TOO_LARGE_PLACES || (k == TOO_LARGE_PLACES && !path_lt(
        d,
        encode_utf8(TOO_LARGE@),
    )))
}

/// Whether a text writes a finite floating-point number.
pub open spec fn is_finite_float(b: Seq<u8>) -> bool {
    is_decimal(b) && !overflows(b)
}

pub(crate) proof fn lemma_mantissa_end(u: Seq<u8>, i: int)
    requires
        0 <= i <= u.len(),
    ensures
        i <= mantissa_end(u, i) <= u.len(),
        mantissa_end(u, i) < u.len() ==> lower(u[mantissa_end(u, i)]) == 101,
    decreases u.len() - i,
{
    if i < u.len() && lower(u[i]) != 101 {
        lemma_mantissa_end(u, i + 1);
    }
}

/// Where the sign, if any, ends.
pub(crate) fn sign_end(b: &[u8]) -> (r: usize)
    ensures
        r <= b@.len(),
        r <= 1,
        unsigned_part(b@) == b@.skip(r as int),
        r == 1 <==> b@.len() > 0 && (b@[0] == 43 || b@[0] == 45),
{
    if b.len() > 0 && (b[0] == 43 || b[0] == 45) {
        1
    } else {
        assert(b@.skip(0) =~= b@);
        0
    }
}

/// Where the mantissa that starts at `start` ends.
fn find_mantissa_end(b: &[u8], start: usize) -> (r: usize)
    requires
        start <= b@.len(),
    ensures
        start <= r <= b@.len(),
        r - start == mantissa_end(b@.skip(start as int), 0),
{
    let ghost u = b@.skip(start as int);
    let mut p: usize = start;
    while p < b.len() && b[p] != 101 && b[p] != 69
        invariant
            start <= p <= b@.len(),
            u == b@.skip(start as int),
            mantissa_end(u, 0) == mantissa_end(u, p - start),
        decreases b@.len() - p,
    {
        assert(u[p - start] == b@[p as int]);
        p = p + 1;
    }
    proof {
        if p < b@.len() {
            assert(u[p - start] == b@[p as int]);
        }
    }
    p
}

fn find_point(m: &[u8]) -> (r: usize)
    ensures
        r == point_of(m@, 0),
        r <= m@.len(),
{
    let mut i: usize = 0;
    while i < m.len() && m[i] != 46
        invariant
            i <= m@.len(),
            point_of(m@, 0) == point_of(m@, i as int),
        decreases m@.len() - i,
    {
        i = i + 1;
    }
    i
}

fn find_lead(m: &[u8]) -> (r: usize)
    ensures
        r == lead_of(m@, 0),
        r <= m@.len(),
{
    let mut i: usize = 0;
    while i < m.len() && (m[i] == 46 || m[i] == 48)
        invariant
            i <= m@.len(),
            lead_of(m@, 0) == lead_of(m@, i as int),
        decreases m@.len() - i,
    {
        i = i + 1;
    }
    i
}

fn collect_digits(m: &[u8], from: usize) -> (r: Vec<u8>)
    ensures
        r@ == digits_from(m@, from as int),
{
    let mut out: Vec<u8> = Vec::new();
    let mut i: usize = from;
    assert(out@ + digits_from(m@, from as int) =~= digits_from(m@, from as int));
    while i < m.len()
        invariant
            out@ + digits_from(m@, i as int) == digits_from(m@, from as int),
        decreases m@.len() - i,
    {
        let ghost before = out@;
        if m[i] != 46 {
            out.push(m[i]);
            assert(before + (seq![m@[i as int]] + digits_from(m@, i + 1)) =~= out@ + digits_from(
                m@,
                i + 1,
            ));
        }
        i = i + 1;
    }
    assert(out@ + digits_from(m@, i as int) =~= out@);
    out
}

/// Far more than the length of any text.
const FAR: i128 = 1000000000000000000000000000000;

/// Whether a number is another, or both are as far out on the same side.
spec fn clamped(c: int, v: int) -> bool {
    c == v || (c >= FAR && v >= FAR) || (c <= -FAR && v <= -FAR)
}

/// The number that digits write, or one that is as far out.
fn clamped_digits(b: &[u8], start: usize) -> (r: i128)
    requires
        start < b@.len(),
        digits_value(b@.skip(start as int)) is Some,
    ensures
        clamped(r as int, digits_value(b@.skip(start as int))->0 as int),
        0 <= r <= 11 * FAR,
{
    let ghost d = b@.skip(start as int);
    let mut value: i128 = 0;
    let mut i: usize = start;
    while i < b.len()
        invariant
            start <= i <= b@.len(),
            start < b@.len(),
            d == b@.skip(start as int),
            digits_value(d) is Some,
            0 <= value <= 11 * FAR,
            i == start ==> value == 0,
            i > start ==> digits_value(d.take(i - start)) is Some && clamped(
                value as int,
                digits_value(d.take(i - start))->0 as int,
            ),
        decreases b@.len() - i,
    {
        let ghost p = d.take(i + 1 - start);
        proof {
            assert(p.drop_last() =~= d.take(i - start));
            assert(p.last() == b@[i as int]);
            crate::text::lemma_digits_prefix(d, i + 1 - start);
            assert(is_digit(p.last()));
        }
        if value < FAR {
            value = value * 10 + (b[i] - 48) as i128;
        }
        i = i + 1;
    }
    assert(d.take(i - start) =~= d);
    value
}

/// The exponent that `b[start..]` writes, or one that is as far out.
fn clamped_exponent(b: &[u8], start: usize) -> (r: i128)
    requires
        start <= b@.len(),
        is_exponent(b@.skip(start as int)),
    ensures
        clamped(r as int, signed_value(b@.skip(start as int))->0),
        -11 * FAR <= r <= 11 * FAR,
{
    let ghost x = b@.skip(start as int);
    assert(x.len() > 0);
    assert(x[0] == b@[start as int]);
    if b[start] == 43 || b[start] == 45 {
        assert(x.skip(1) =~= b@.skip(start + 1));
        let v = clamped_digits(b, start + 1);
        if b[start] == 45 {
            -v
        } else {
            v
        }
    } else {
        clamped_digits(b, start)
    }
}

/// Whether a text writes a number in decimal digits.
pub(crate) fn check_decimal(b: &[u8]) -> (r: bool)
    ensures
        r == is_decimal(b@),
{
    let start = sign_end(b);
    let p = find_mantissa_end(b, start);
    let ghost u = unsigned_part(b@);
    assert(b@.subrange(start as int, p as int) =~= mantissa(b@));
    if !check_mantissa(b, start, p) {
        return false;
    }
    if p < b.len() {
        assert(u.skip(p - start + 1) =~= b@.skip(p + 1));
        check_exponent(b, p + 1)
    } else {
        true
    }
}

/// Whether a number is another, or both are out of the range of floats on the same side.
pub open spec fn near(c: int, v: int) -> bool {
    c == v || (c > 1000 && v > 1000) || (c < -1000 && v < -1000)
}

/// The significant digits of a decimal numeral, and its scale as far as floats reach.
pub(crate) fn decimal_parts(b: &[u8]) -> (r: (Vec<u8>, i128))
    requires
        is_decimal(b@),
    ensures
        r.0@ == significant(b@),
        near(r.1 as int, scale(b@)),
{
    let start = sign_end(b);
    let p = find_mantissa_end(b, start);
    let ghost u = unsigned_part(b@);
    let mut exp: i128 = 0;
    if p < b.len() {
        assert(u.skip(p - start + 1) =~= b@.skip(p + 1));
        exp = clamped_exponent(b, p + 1);
    }
    let m = vstd::slice::slice_subrange(b, start, p);
    assert(m@ =~= mantissa(b@));
    let point = find_point(m);
    let lead = find_lead(m);
    let before: i128 = if lead < point {
        (point - lead) as i128
    } else {
        point as i128 - lead as i128 + 1
    };
    let mut digits = collect_digits(m, lead);
    while digits.len() > 0 && digits[digits.len() - 1] == 48
        invariant
            trimmed(digits@) == significant(b@),
        decreases digits@.len(),
    {
        digits.pop();
    }
    (digits, before + exp)
}

/// Whether a text writes a finite floating-point number.
pub fn check_finite(b: &[u8]) -> (r: bool)
    ensures
        r == is_finite_float(b@),
{
    if !check_decimal(b) {
        return false;
    }
    let (digits, k) = decimal_parts(b);
    if digits.len() == 0 {
        return true;
    }
    if k != TOO_LARGE_PLACES {
        return k < TOO_LARGE_PLACES;
    }
    proof {
        let limit = encode_utf8(TOO_LARGE@);
        path_lt_irreflexive(limit);
        if path_lt(limit, digits@) && path_lt(digits@, limit) {
            path_lt_transitive(limit, digits@, limit);
        }
    }
    match compare_paths(digits.as_slice(), TOO_LARGE.as_bytes()) {
        PathOrder::Before => true,
        _ => false,
    }
}

/// The position of the first byte from `i` on that is no zero.
pub open spec fn zeros_end(m: Seq<u8>, i: int) -> int
    decreases m.len() - i,
{
    if 0 <= i < m.len() && m[i] == 48 {
        zeros_end(m, i + 1)
    } else {
        i
    }
}

/// A decimal numeral as JSON writes it: no `+`, no needless zeros before the point and at least
/// one digit there, and always a fraction, so that it is read as a float.
pub open spec fn json_numeral(b: Seq<u8>) -> Seq<u8> {
    let u = unsigned_part(b);
    let p = mantissa_end(u, 0);
    let m = mantissa(b);
    let point = point_of(m, 0);
    let zeros = zeros_end(m, 0);
    let sign = if b.len() > 0 && b[0] == 45 {
        seq![45u8]
    } else {
        seq![]
    };
    let whole = if zeros >= point {
        seq![48u8]
    } else {
        m.subrange(zeros, point)
    };
    let fraction = if point + 1 < m.len() {
        m.skip(point)
    } else {
        seq![46u8, 48u8]
    };
    sign + whole + fraction + u.skip(p)
}

/// The text of a decimal numeral as JSON writes it.
pub open spec fn json_number(t: Seq<char>) -> Seq<char> {
    readable_text(json_numeral(encode_utf8(t)))
}

/// A decimal numeral as JSON writes it.
pub fn number_for_json(t: &str) -> (r: String)
    ensures
        r@ == json_number(t@),
{
    let b = t.as_bytes();
    let start = sign_end(b);
    let p = find_mantissa_end(b, start);
    let ghost u = unsigned_part(b@);
    let m = vstd::slice::slice_subrange(b, start, p);
    assert(m@ =~= mantissa(b@));
    let point = find_point(m);
    let mut zeros: usize = 0;
    while zeros < m.len() && m[zeros] == 48
        invariant
            zeros <= m@.len(),
            zeros_end(m@, 0) == zeros_end(m@, zeros as int),
        decreases m@.len() - zeros,
    {
        zeros = zeros + 1;
    }
    let mut out: Vec<u8> = Vec::new();
    if b.len() > 0 && b[0] == 45 {
        out.push(45);
    }
    let ghost sign = out@;
    if zeros >= point {
        out.push(48);
    } else {
        out.extend_from_slice(vstd::slice::slice_subrange(m, zeros, point));
    }
    let ghost whole = out@;
    if point < m.len() && point + 1 < m.len() {
        out.extend_from_slice(vstd::slice::slice_subrange(m, point, m.len()));
        assert(m@.subrange(point as int, m@.len() as int) =~= m@.skip(point as int));
    } else {
        out.push(46);
        out.push(48);
    }
    out.extend_from_slice(vstd::slice::slice_subrange(b, p, b.len()));
    proof {
        assert(b@.subrange(p as int, b@.len() as int) =~= u.skip(p - start));
        assert(out@ =~= json_numeral(b@));
    }
    lossy(out.as_slice())
}

/// A finite float is a float; an infinity or NaN is no finite one, whatever its sign and case.
pub proof fn finite_floats_are_numerals(b: Seq<u8>)
    ensures
        is_finite_float(b) ==> is_float(b),
        ({
            let u = unsigned_part(b);
            is_word(u, seq![105, 110, 102]) || is_word(
                u,
                seq![105, 110, 102, 105, 110, 105, 116, 121],
            ) || is_word(u, seq![110, 97, 110])
        }) ==> is_float(b) && !is_finite_float(b),
{
    let u = unsigned_part(b);
    lemma_mantissa_end(u, 0);
    let p = mantissa_end(u, 0);
    let m = mantissa(b);
    if is_finite_float(b) {
        if p < u.len() {
            assert(exponent_at(u, p));
        } else {
            assert(m =~= u);
        }
    }
    if u.len() > 0 && !is_digit(u[0]) && u[0] != 46 && m.len() > 0 {
        assert(m[0] == u[0]);
    }
}

} // verus!
