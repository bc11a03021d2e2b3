//! The form in which a 64-bit float prints: digits without an exponent, as few of them as tell the
//! float from its neighbours.
use vstd::prelude::*;
use vstd::utf8::encode_utf8;

use crate::float::{
    check_decimal, check_finite, decimal_parts, is_decimal, is_finite_float, json_number,
    number_for_json, overflows, scale, sign_end, significant, unsigned_part,
};
use crate::json::{json_from_bytes, json_read, Json, JsonView};
use crate::float_laws::lemma_significant;
use crate::text::{check_word, digits_value, is_digit, is_word, parse_u64};

verus! {

/// The scales between which the floats lie that are not zero.
pub const LEAST_SCALE: i128 = -323;

pub const GREATEST_SCALE: i128 = 309;

/// A float tells apart all decimals of so many digits that are not below the next scale.
pub const KEPT_DIGITS: usize = 15;

pub const LEAST_KEPT_SCALE: i128 = -306;

/// Text of ASCII bytes.
pub open spec fn ascii_text(b: Seq<u8>) -> Seq<char> {
    Seq::new(b.len(), |i: int| b[i] as char)
}

pub open spec fn zeros(n: int) -> Seq<u8> {
    Seq::new(
        if n > 0 {
            n as nat
        } else {
            0
        },
        |i: int| 48u8,
    )
}

/// The digits of a number, of which `k` stand before the point.
pub open spec fn positional(d: Seq<u8>, k: int) -> Seq<u8> {
    if d.len() == 0 {
        seq![48u8]
    } else if k <= 0 {
        seq![48u8, 46u8] + zeros(-k) + d
    } else if k >= d.len() {
        d + zeros(k - d.len())
    } else {
        d.take(k) + seq![46u8] + d.skip(k)
    }
}

pub open spec fn is_nan(b: Seq<u8>) -> bool {
    is_word(unsigned_part(b), seq![110u8, 97, 110])
}

/// Whether a text writes an infinity, by name or as a number that is too large.
pub open spec fn is_infinite(b: Seq<u8>) -> bool {
    let u = unsigned_part(b);
    ||| is_word(u, seq![105u8, 110, 102])
    ||| is_word(u, seq![105u8, 110, 102, 105, 110, 105, 116, 121])
    ||| is_decimal(b) && overflows(b)
}

/// Whether a decimal numeral is zero or has a scale that floats have.
pub open spec fn is_plain(b: Seq<u8>) -> bool {
    is_decimal(b) && (significant(b).len() == 0 || LEAST_SCALE <= scale(b) <= GREATEST_SCALE)
}

pub open spec fn minus(b: Seq<u8>) -> Seq<u8> {
    if b.len() > 0 && b[0] == 45 {
        seq![45u8]
    } else {
        seq![]
    }
}

/// A number without a needless sign, needless zeros and an exponent; `NaN`, `inf` and `-inf` for
/// what is no number or too large for a float. Any other text stays as it is.
pub open spec fn plain_form(t: Seq<char>) -> Seq<char> {
    let b = encode_utf8(t);
    if is_nan(b) {
        "NaN"@
    } else if is_infinite(b) {
        ascii_text(minus(b) + seq![105u8, 110, 102])
    } else if is_plain(b) {
        ascii_text(minus(b) + positional(significant(b), scale(b)))
    } else {
        t
    }
}

/// Whether the digits of a number are more than every float keeps, so that the nearest float has
/// to be found to print it.
pub open spec fn needs_rounding(b: Seq<u8>) -> bool {
    is_finite_float(b) && significant(b).len() > 0 && (significant(b).len() > KEPT_DIGITS
        || scale(b) < LEAST_KEPT_SCALE)
}

/// Five to the power `n`.
pub open spec fn five(n: nat) -> nat
    decreases n,
{
    if n == 0 {
        1
    } else {
        5 * five((n - 1) as nat)
    }
}

/// The least power of two, from `p` on, that is greater than `e`; `p` where `n` doublings do not
/// lead there.
pub open spec fn power_above(p: nat, e: nat, n: nat) -> nat
    decreases n,
{
    if p > e || n == 0 {
        p
    } else {
        power_above(2 * p, e, (n - 1) as nat)
    }
}

/// Digits with another one behind them.
pub open spec fn next_half(d: Seq<u8>) -> nat {
    (digits_value(d)->0 * 10 + 5) as nat
}

/// Whether a float is the middle between digits that print it, with `k` of them before the point,
/// and the next larger ones. With `q` digits behind the point the middle is `next_half(d) / 10^q`.
/// It is a float where that is an integer of 53 bits over `2^q`, and it is the one that the digits
/// print where they lie nearer to it than half its distance to the next float.
pub open spec fn is_midway(d: Seq<u8>, k: int) -> bool {
    let q = d.len() + 1 - k;
    let f = five(q as nat);
    let e = next_half(d) / f;
    &&& 0 < d.len() <= 18
    &&& digits_value(d) is Some
    &&& d.last() % 2 == 0
    &&& 0 < q <= 25
    &&& next_half(d) % f == 0
    &&& e < 0x20_0000_0000_0000
    &&& f * power_above(1, e, 53) > 10 * 0x20_0000_0000_0000
}

/// The digits of which the last is one more.
pub open spec fn raised(d: Seq<u8>) -> Seq<u8> {
    d.drop_last().push((d.last() + 1) as u8)
}

/// The larger of two forms that are equally near to the float that one of them prints.
pub open spec fn settled(s: Seq<char>) -> Seq<char> {
    let b = encode_utf8(s);
    if is_decimal(b) && is_midway(significant(b), scale(b)) {
        ascii_text(minus(b) + positional(raised(significant(b)), scale(b)))
    } else {
        s
    }
}

/// The form in which the float prints that a text writes. Up to fifteen digits are those of the
/// nearest float. Of more digits, what `serde_json` reads in them is the nearest float, and what it
/// writes of it is as short and as near as can be; of two such forms the larger is printed.
pub open spec fn float_form(t: Seq<char>) -> Seq<char> {
    if needs_rounding(encode_utf8(t)) {
        match json_read(encode_utf8(json_number(t))) {
            Ok(JsonView::Float(s)) => plain_form(settled(s)),
            _ => plain_form(t),
        }
    } else {
        plain_form(t)
    }
}

/// Whether a text is the form in which a float prints.
pub open spec fn is_printed(t: Seq<char>) -> bool {
    float_form(t) == t
}

fn push_zeros(out: &mut Vec<u8>, n: usize)
    ensures
        final(out)@ == old(out)@ + zeros(n as int),
{
    let mut i: usize = 0;
    assert(out@ =~= old(out)@ + zeros(0));
    while i < n
        invariant
            i <= n,
            out@ == old(out)@ + zeros(i as int),
        decreases n - i,
    {
        out.push(48);
        i = i + 1;
        assert(out@ =~= old(out)@ + zeros(i as int));
    }
}

fn push_positional(out: &mut Vec<u8>, d: &[u8], k: i128)
    requires
        d@.len() == 0 || LEAST_SCALE <= k <= GREATEST_SCALE,
    ensures
        final(out)@ == old(out)@ + positional(d@, k as int),
{
    if d.len() == 0 {
        out.push(48);
    } else if k <= 0 {
        out.push(48);
        out.push(46);
        push_zeros(out, (-k) as usize);
        out.extend_from_slice(d);
    } else {
        let whole: usize = k as usize;
        if whole >= d.len() {
            out.extend_from_slice(d);
            push_zeros(out, whole - d.len());
        } else {
            out.extend_from_slice(vstd::slice::slice_subrange(d, 0, whole));
            out.push(46);
            out.extend_from_slice(vstd::slice::slice_subrange(d, whole, d.len()));
            assert(d@.subrange(0, whole as int) =~= d@.take(whole as int));
            assert(d@.subrange(whole as int, d@.len() as int) =~= d@.skip(whole as int));
        }
    }
    assert(out@ =~= old(out)@ + positional(d@, k as int));
}

fn string_of_ascii(b: &Vec<u8>) -> (r: String)
    ensures
        r@ == ascii_text(b@),
{
    let mut out = String::new();
    let mut i: usize = 0;
    assert(out@ =~= ascii_text(b@).take(0));
    while i < b.len()
        invariant
            i <= b@.len(),
            out@ == ascii_text(b@).take(i as int),
        decreases b@.len() - i,
    {
        out.push(b[i] as char);
        i = i + 1;
        assert(out@ =~= ascii_text(b@).take(i as int));
    }
    assert(ascii_text(b@).take(i as int) =~= ascii_text(b@));
    out
}

/// A number without a needless sign, needless zeros and an exponent.
pub fn print_plain(t: &str) -> (r: String)
    ensures
        r@ == plain_form(t@),
{
    let b = t.as_bytes();
    let start = sign_end(b);
    if check_word(b, start, &[110, 97, 110]) {
        return "NaN".to_owned();
    }
    let mut out: Vec<u8> = Vec::new();
    if b.len() > 0 && b[0] == 45 {
        out.push(45);
    }
    assert(out@ =~= minus(b@));
    let named = check_word(b, start, &[105, 110, 102]) || check_word(
        b,
        start,
        &[105, 110, 102, 105, 110, 105, 116, 121],
    );
    let decimal = check_decimal(b);
    if named || (decimal && !check_finite(b)) {
        out.push(105);
        out.push(110);
        out.push(102);
        assert(out@ =~= minus(b@) + seq![105u8, 110, 102]);
        return string_of_ascii(&out);
    }
    if !decimal {
        return t.to_owned();
    }
    let (digits, k) = decimal_parts(b);
    if digits.len() == 0 || (LEAST_SCALE <= k && k <= GREATEST_SCALE) {
        push_positional(&mut out, digits.as_slice(), k);
        string_of_ascii(&out)
    } else {
        t.to_owned()
    }
}

proof fn lemma_five(n: nat)
    requires
        n <= 25,
    ensures
        1 <= five(n) <= 298023223876953125,
        n > 0 ==> five(n) == 5 * five((n - 1) as nat),
{
    reveal_with_fuel(five, 26);
    lemma_five_grows(n, 25);
    lemma_five_grows(0, n);
    assert(five(25) == 298023223876953125);
}

proof fn lemma_five_grows(m: nat, n: nat)
    requires
        m <= n,
    ensures
        five(m) <= five(n),
    decreases n - m,
{
    if m < n {
        lemma_five_grows(m, (n - 1) as nat);
    }
}

spec fn ten(n: nat) -> nat
    decreases n,
{
    if n == 0 {
        1
    } else {
        10 * ten((n - 1) as nat)
    }
}

proof fn lemma_digits_below(d: Seq<u8>)
    requires
        digits_value(d) is Some,
    ensures
        digits_value(d)->0 < ten(d.len()),
    decreases d.len(),
{
    reveal_with_fuel(ten, 2);
    if d.len() > 1 {
        lemma_digits_below(d.drop_last());
    }
}

proof fn lemma_ten_grows(m: nat, n: nat)
    requires
        m <= n,
    ensures
        ten(m) <= ten(n),
    decreases n - m,
{
    if m < n {
        lemma_ten_grows(m, (n - 1) as nat);
    }
}

/// The number that up to eighteen digits write fits in 64 bits.
proof fn lemma_digits_fit(d: Seq<u8>)
    requires
        d.len() <= 18,
    ensures
        digits_value(d) matches Some(v) ==> v <= u64::MAX,
{
    if digits_value(d) is Some {
        lemma_digits_below(d);
        lemma_ten_grows(d.len(), 18);
        reveal_with_fuel(ten, 19);
    }
}

/// Whether a float is the middle between digits that print it and the next larger ones.
fn check_midway(d: &Vec<u8>, k: i128) -> (r: bool)
    requires
        forall|i: int| 0 <= i < d@.len() ==> is_digit(#[trigger] d@[i]),
    ensures
        r == is_midway(d@, k as int),
{
    if d.len() == 0 || d.len() > 18 || d[d.len() - 1] % 2 != 0 {
        return false;
    }
    let places: i128 = d.len() as i128 + 1;
    if k >= places || k < places - 25 {
        return false;
    }
    let q: u64 = (places - k) as u64;
    proof {
        lemma_digits_fit(d@);
        assert(is_digit(d@[0]));
    }
    let value: u64 = match parse_u64(d.as_slice()) {
        Some(v) => v,
        None => return false,
    };
    let mut f: u128 = 1;
    let mut i: u64 = 0;
    while i < q
        invariant
            i <= q <= 25,
            f == five(i as nat),
        decreases q - i,
    {
        proof {
            lemma_five((i + 1) as nat);
        }
        f = 5 * f;
        i = i + 1;
    }
    proof {
        lemma_five(q as nat);
    }
    let half: u128 = value as u128 * 10 + 5;
    if half % f != 0 {
        return false;
    }
    let e: u128 = half / f;
    if e >= 0x20_0000_0000_0000 {
        return false;
    }
    let mut p: u128 = 1;
    let mut n: u64 = 53;
    while p <= e && n > 0
        invariant
            n <= 53,
            e < 0x20_0000_0000_0000,
            1 <= p <= 0x40_0000_0000_0000,
            power_above(1, e as nat, 53) == power_above(p as nat, e as nat, n as nat),
        decreases n,
    {
        p = 2 * p;
        n = n - 1;
    }
    assert(f * p <= 298023223876953125 * 0x40_0000_0000_0000) by (nonlinear_arith)
        requires
            f <= 298023223876953125,
            p <= 0x40_0000_0000_0000,
    ;
    f * p > 10 * 0x20_0000_0000_0000
}

/// The larger of two forms that are equally near to the float that one of them prints.
pub fn settle(s: String) -> (r: String)
    ensures
        r@ == settled(s@),
{
    let b = s.as_str().as_bytes();
    if !check_decimal(b) {
        return s;
    }
    let (mut digits, k) = decimal_parts(b);
    proof {
        lemma_significant(b@);
    }
    if !check_midway(&digits, k) {
        return s;
    }
    let ghost d = digits@;
    let last: usize = digits.len() - 1;
    let digit: u8 = digits[last];
    digits.pop();
    digits.push(digit + 1);
    assert(digits@ =~= raised(d));
    let mut out: Vec<u8> = Vec::new();
    if b.len() > 0 && b[0] == 45 {
        out.push(45);
    }
    assert(out@ =~= minus(b@));
    push_positional(&mut out, digits.as_slice(), k);
    string_of_ascii(&out)
}

/// The form in which the float prints that a text writes.
pub fn print_float(t: &str) -> (r: String)
    ensures
        r@ == float_form(t@),
{
    let b = t.as_bytes();
    if check_finite(b) {
        let (digits, k) = decimal_parts(b);
        if digits.len() > 0 && (digits.len() > KEPT_DIGITS || k < LEAST_KEPT_SCALE) {
            let number = number_for_json(t);
            return match json_from_bytes(number.as_str().as_bytes()) {
                Ok(Json::Float(s)) => print_plain(settle(s).as_str()),
                _ => print_plain(t),
            };
        }
    }
    print_plain(t)
}

} // verus!
