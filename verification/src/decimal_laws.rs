//! What a decimal numeral is worth: its significant digits and their scale, its sign, its exponent,
//! and how it is written for others to read.
use vstd::prelude::*;
use vstd::utf8::encode_utf8;

use crate::float::{
    digits_from, exponent, is_decimal, is_finite_float, json_numeral, lead_of, mantissa,
    mantissa_end, places, point_of, scale, significant, trimmed, unsigned_part, zeros_end,
};
use crate::float_text::{minus, plain_form};
use crate::text::{digits_value, is_digit, is_exponent, is_mantissa, power_of_ten, signed_value};
use crate::text_laws::{digits_write_a_number, spells};

verus! {

/// Whether the bytes are digits.
pub open spec fn are_digits(b: Seq<u8>) -> bool {
    forall|i: int| 0 <= i < b.len() ==> 48 <= #[trigger] b[i] <= 57
}

/// The bytes of a numeral without a sign and an exponent: digits before the point and after it,
/// where there is one.
pub open spec fn numeral(whole: Seq<u8>, pointed: bool, fraction: Seq<u8>) -> Seq<u8> {
    if pointed {
        whole + seq![46u8] + fraction
    } else {
        whole
    }
}

/// Whether there is such a numeral.
pub open spec fn is_numeral(whole: Seq<u8>, pointed: bool, fraction: Seq<u8>) -> bool {
    &&& are_digits(whole)
    &&& are_digits(fraction)
    &&& whole.len() + fraction.len() > 0
    &&& !pointed ==> fraction.len() == 0
}

/// The leading zeros of digits.
pub open spec fn leading(d: Seq<u8>) -> nat
    decreases d.len(),
{
    if d.len() > 0 && d[0] == 48 {
        1 + leading(d.drop_first())
    } else {
        0
    }
}

proof fn lemma_leading(d: Seq<u8>)
    ensures
        leading(d) <= d.len(),
        forall|i: int| 0 <= i < leading(d) ==> #[trigger] d[i] == 48,
        leading(d) < d.len() ==> d[leading(d) as int] != 48,
    decreases d.len(),
{
    if d.len() > 0 && d[0] == 48 {
        let r = d.drop_first();
        lemma_leading(r);
        assert forall|i: int| 0 <= i < leading(d) implies #[trigger] d[i] == 48 by {
            if i > 0 {
                assert(d[i] == r[i - 1]);
            }
        }
        if leading(d) < d.len() {
            assert(d[leading(d) as int] == r[leading(r) as int]);
        }
    }
}

proof fn lemma_value(d: Seq<u8>)
    requires
        are_digits(d),
        d.len() > 0,
    ensures
        digits_value(d) is Some,
{
    digits_write_a_number(d, d);
}

/// Leading zeros add nothing.
proof fn lemma_skip_zeros(d: Seq<u8>, z: int)
    requires
        are_digits(d),
        0 <= z < d.len(),
        forall|i: int| 0 <= i < z ==> #[trigger] d[i] == 48,
    ensures
        digits_value(d) == digits_value(d.skip(z)),
    decreases z,
{
    if z == 0 {
        assert(d.skip(0) =~= d);
    } else {
        let front = d.take(1);
        let rest = d.skip(1);
        assert(d =~= front + rest);
        assert(are_digits(rest)) by {
            assert forall|i: int| 0 <= i < rest.len() implies 48 <= #[trigger] rest[i] <= 57 by {
                assert(rest[i] == d[i + 1]);
            }
        }
        assert(front[0] == d[0]);
        lemma_value(rest);
        digits_write_a_number(front, rest);
        assert(digits_value(front)->0 == 0);
        assert(0 * power_of_ten(rest.len()) == 0);
        assert forall|i: int| 0 <= i < z - 1 implies #[trigger] rest[i] == 48 by {
            assert(rest[i] == d[i + 1]);
        }
        lemma_skip_zeros(rest, z - 1);
        assert(rest.skip(z - 1) =~= d.skip(z));
    }
}

proof fn lemma_all_zero(d: Seq<u8>)
    requires
        d.len() > 0,
        forall|i: int| 0 <= i < d.len() ==> #[trigger] d[i] == 48,
    ensures
        digits_value(d) == Some(0nat),
    decreases d.len(),
{
    if d.len() > 1 {
        assert forall|i: int| 0 <= i < d.drop_last().len() implies #[trigger] d.drop_last()[i]
            == 48 by {
            assert(d.drop_last()[i] == d[i]);
        }
        lemma_all_zero(d.drop_last());
    }
    assert(d.last() == d[d.len() - 1]);
}

/// Trailing zeros are powers of ten.
proof fn lemma_trimmed(d: Seq<u8>)
    requires
        are_digits(d),
        d.len() > 0,
        d[0] != 48,
    ensures
        0 < trimmed(d).len() <= d.len(),
        trimmed(d)[0] == d[0],
        trimmed(d).last() != 48,
        are_digits(trimmed(d)),
        digits_value(d)->0 == digits_value(trimmed(d))->0 * power_of_ten(
            (d.len() - trimmed(d).len()) as nat,
        ),
    decreases d.len(),
{
    if d.last() == 48 {
        let f = d.drop_last();
        assert(d.len() > 1) by {
            if d.len() == 1 {
                assert(d.last() == d[0]);
            }
        }
        assert(f[0] == d[0]);
        assert forall|i: int| 0 <= i < f.len() implies 48 <= #[trigger] f[i] <= 57 by {
            assert(f[i] == d[i]);
        }
        lemma_trimmed(f);
        lemma_value(f);
        let t = digits_value(trimmed(d))->0;
        let n = (f.len() - trimmed(d).len()) as nat;
        assert(power_of_ten(n + 1) == 10 * power_of_ten(n));
        assert((t * power_of_ten(n)) * 10 == t * (10 * power_of_ten(n))) by (nonlinear_arith);
    } else {
        assert(power_of_ten(0) == 1);
        assert(digits_value(d)->0 * 1 == digits_value(d)->0);
    }
}

proof fn lemma_lead(m: Seq<u8>, i: int, l: int)
    requires
        0 <= i <= l <= m.len(),
        forall|j: int| i <= j < l ==> #[trigger] m[j] == 46 || m[j] == 48,
        l < m.len() ==> m[l] != 46 && m[l] != 48,
    ensures
        lead_of(m, i) == l,
    decreases l - i,
{
    if i < l {
        assert(m[i] == 46 || m[i] == 48);
        lemma_lead(m, i + 1, l);
    }
}

proof fn lemma_point(m: Seq<u8>, i: int, p: int)
    requires
        0 <= i <= p <= m.len(),
        forall|j: int| i <= j < p ==> #[trigger] m[j] != 46,
        p < m.len() ==> m[p] == 46,
    ensures
        point_of(m, i) == p,
    decreases p - i,
{
    if i < p {
        assert(m[i] != 46);
        lemma_point(m, i + 1, p);
    }
}

proof fn lemma_no_exponent(u: Seq<u8>, i: int)
    requires
        0 <= i <= u.len(),
        forall|j: int| i <= j < u.len() ==> #[trigger] u[j] != 101 && u[j] != 69,
    ensures
        mantissa_end(u, i) == u.len(),
    decreases u.len() - i,
{
    if i < u.len() {
        assert(u[i] != 101 && u[i] != 69);
        lemma_no_exponent(u, i + 1);
    }
}

proof fn lemma_exponent_at(u: Seq<u8>, i: int, p: int)
    requires
        0 <= i <= p < u.len(),
        forall|j: int| i <= j < p ==> #[trigger] u[j] != 101 && u[j] != 69,
        u[p] == 101 || u[p] == 69,
    ensures
        mantissa_end(u, i) == p,
    decreases p - i,
{
    if i < p {
        assert(u[i] != 101 && u[i] != 69);
        lemma_exponent_at(u, i + 1, p);
    }
}

/// The digits of a part without a point are that part.
proof fn lemma_digits_plain(m: Seq<u8>, i: int)
    requires
        0 <= i <= m.len(),
        forall|j: int| i <= j < m.len() ==> #[trigger] m[j] != 46,
    ensures
        digits_from(m, i) == m.skip(i),
    decreases m.len() - i,
{
    if i < m.len() {
        assert(m[i] != 46);
        lemma_digits_plain(m, i + 1);
        assert(m.skip(i) =~= seq![m[i]] + m.skip(i + 1));
    } else {
        assert(m.skip(i) =~= seq![]);
    }
}

proof fn lemma_digits_pointed(w: Seq<u8>, f: Seq<u8>, i: int)
    requires
        are_digits(w),
        are_digits(f),
        0 <= i <= w.len(),
    ensures
        digits_from(w + seq![46u8] + f, i) == w.skip(i) + f,
    decreases w.len() - i,
{
    let m = w + seq![46u8] + f;
    if i < w.len() {
        assert(m[i] == w[i]);
        lemma_digits_pointed(w, f, i + 1);
        assert(w.skip(i) + f =~= seq![w[i]] + (w.skip(i + 1) + f));
    } else {
        assert(m[i] == 46);
        assert forall|j: int| i + 1 <= j < m.len() implies #[trigger] m[j] != 46 by {
            assert(m[j] == f[j - w.len() - 1]);
        }
        lemma_digits_plain(m, i + 1);
        assert(m.skip(i + 1) =~= f);
        assert(w.skip(i) + f =~= f);
    }
}

/// What the parts of a numeral are.
proof fn lemma_parts(w: Seq<u8>, pointed: bool, f: Seq<u8>)
    requires
        is_numeral(w, pointed, f),
    ensures
        ({
            let b = numeral(w, pointed, f);
            let z = leading(w + f) as int;
            &&& b.len() > 0
            &&& b[0] != 43 && b[0] != 45
            &&& unsigned_part(b) == b
            &&& mantissa(b) == b
            &&& mantissa_end(b, 0) == b.len()
            &&& exponent(b) == 0
            &&& point_of(b, 0) == w.len()
            &&& z < w.len() + f.len() ==> places(b) == w.len() - z
            &&& significant(b) == trimmed((w + f).skip(z))
            &&& is_decimal(b)
        }),
{
    let b = numeral(w, pointed, f);
    let d = w + f;
    let z = leading(d) as int;
    lemma_leading(d);
    assert forall|j: int| 0 <= j < b.len() implies 48 <= #[trigger] b[j] <= 57 || (b[j] == 46 && j
        == w.len() && pointed) by {
        if j < w.len() {
            assert(b[j] == w[j]);
        } else if j > w.len() {
            assert(b[j] == f[j - w.len() - 1]);
        }
    }
    lemma_no_exponent(b, 0);
    assert(b.take(b.len() as int) =~= b);
    lemma_point(b, 0, w.len() as int);
    let l = if z < w.len() || !pointed {
        z
    } else {
        z + 1
    };
    assert forall|j: int| 0 <= j < l implies #[trigger] b[j] == 46 || b[j] == 48 by {
        if j < w.len() {
            assert(b[j] == d[j]);
        } else if j > w.len() {
            assert(b[j] == d[j - 1]);
        }
    }
    if l < b.len() {
        if l < w.len() {
            assert(b[l] == d[l]);
        } else {
            assert(b[l] == d[l - 1]);
        }
    }
    lemma_lead(b, 0, l);
    if pointed {
        if l <= w.len() {
            lemma_digits_pointed(w, f, l);
            assert(w.skip(l) + f =~= d.skip(z));
        } else {
            assert forall|j: int| l <= j < b.len() implies #[trigger] b[j] != 46 by {}
            lemma_digits_plain(b, l);
            assert(b.skip(l) =~= d.skip(z));
        }
    } else {
        lemma_digits_plain(b, l);
        assert(b =~= d);
    }
    assert(is_mantissa(b)) by {
        assert forall|i: int| 0 <= i < b.len() implies is_digit(#[trigger] b[i]) || b[i] == 46 by {}
        if w.len() > 0 {
            assert(is_digit(b[0])) by {
                assert(b[0] == w[0]);
            }
        } else {
            assert(b[1] == f[0]);
            assert(is_digit(b[1]));
        }
    }
}

/// A numeral is worth its significant digits at their scale: they start and end with no zero, and
/// what the digits before and after the point write together is what they write, times ten for each
/// place by which the scale exceeds them. A numeral that is worth nothing has none.
pub proof fn a_numeral_is_digits_at_a_scale(w: Seq<u8>, pointed: bool, f: Seq<u8>)
    requires
        is_numeral(w, pointed, f),
    ensures
        ({
            let b = numeral(w, pointed, f);
            let s = significant(b);
            let places = scale(b) - s.len() + f.len();
            &&& is_decimal(b)
            &&& digits_value(w + f) is Some
            &&& digits_value(w + f) == Some(0nat) <==> s.len() == 0
            &&& s.len() > 0 ==> {
                &&& are_digits(s)
                &&& s[0] != 48 && s.last() != 48
                &&& places >= 0
                &&& digits_value(w + f)->0 == digits_value(s)->0 * power_of_ten(places as nat)
            }
        }),
{
    lemma_parts(w, pointed, f);
    let d = w + f;
    let z = leading(d) as int;
    lemma_leading(d);
    assert(are_digits(d)) by {
        assert forall|i: int| 0 <= i < d.len() implies 48 <= #[trigger] d[i] <= 57 by {
            if i < w.len() {
                assert(d[i] == w[i]);
            } else {
                assert(d[i] == f[i - w.len()]);
            }
        }
    }
    lemma_value(d);
    if z < d.len() {
        let rest = d.skip(z);
        assert forall|i: int| 0 <= i < rest.len() implies 48 <= #[trigger] rest[i] <= 57 by {
            assert(rest[i] == d[i + z]);
        }
        assert(rest[0] == d[z]);
        lemma_skip_zeros(d, z);
        lemma_trimmed(rest);
        lemma_positive(trimmed(rest));
        let t = digits_value(trimmed(rest))->0;
        let n = (rest.len() - trimmed(rest).len()) as nat;
        lemma_power_positive(n);
        assert(t * power_of_ten(n) > 0) by (nonlinear_arith)
            requires
                t > 0,
                power_of_ten(n) > 0,
        ;
    } else {
        assert(d.skip(z) =~= seq![]);
        lemma_all_zero(d);
    }
}

proof fn lemma_power_positive(n: nat)
    ensures
        power_of_ten(n) > 0,
    decreases n,
{
    if n > 0 {
        lemma_power_positive((n - 1) as nat);
    }
}

proof fn lemma_positive(d: Seq<u8>)
    requires
        are_digits(d),
        d.len() > 0,
        d.last() != 48,
    ensures
        digits_value(d) matches Some(v) && v > 0,
{
    lemma_value(d);
    if d.len() > 1 {
        let f = d.drop_last();
        assert forall|i: int| 0 <= i < f.len() implies 48 <= #[trigger] f[i] <= 57 by {
            assert(f[i] == d[i]);
        }
        lemma_value(f);
    }
    assert(d.last() == d[d.len() - 1]);
}

/// A sign changes neither the digits nor the scale of a numeral, and an exponent adds to its scale;
/// a minus is kept and a plus is not.
pub proof fn signs_and_exponents_are_read(
    w: Seq<u8>,
    pointed: bool,
    f: Seq<u8>,
    e: u8,
    x: Seq<u8>,
)
    requires
        is_numeral(w, pointed, f),
        e == 101 || e == 69,
        is_exponent(x),
    ensures
        ({
            let b = numeral(w, pointed, f);
            let c = b + seq![e] + x;
            &&& signed_value(x) is Some
            &&& is_decimal(c)
            &&& significant(c) == significant(b)
            &&& scale(c) == scale(b) + signed_value(x)->0
            &&& is_decimal(seq![45u8] + c) && significant(seq![45u8] + c) == significant(b)
                && scale(seq![45u8] + c) == scale(c) && minus(seq![45u8] + c) == seq![45u8]
            &&& is_decimal(seq![43u8] + c) && significant(seq![43u8] + c) == significant(b)
                && scale(seq![43u8] + c) == scale(c) && minus(seq![43u8] + c).len() == 0
            &&& significant(seq![45u8] + b) == significant(b) && scale(seq![45u8] + b) == scale(b)
            &&& significant(seq![43u8] + b) == significant(b) && scale(seq![43u8] + b) == scale(b)
        }),
{
    let b = numeral(w, pointed, f);
    let c = b + seq![e] + x;
    let p = b.len() as int;
    lemma_parts(w, pointed, f);
    assert(c[0] == b[0]);
    assert forall|j: int| 0 <= j < p implies #[trigger] c[j] != 101 && c[j] != 69 by {
        assert(c[j] == b[j]);
        if j < w.len() {
            assert(b[j] == w[j]);
        } else if j > w.len() {
            assert(b[j] == f[j - w.len() - 1]);
        }
    }
    assert(c[p] == e);
    lemma_exponent_at(c, 0, p);
    assert(c.take(p) =~= b);
    assert(c.skip(p + 1) =~= x);
    assert(unsigned_part(c) == c);
    lemma_signed(x);
    assert((seq![45u8] + c).skip(1) =~= c);
    assert((seq![43u8] + c).skip(1) =~= c);
    assert((seq![45u8] + b).skip(1) =~= b);
    assert((seq![43u8] + b).skip(1) =~= b);
    assert((seq![45u8] + c)[0] == 45 && (seq![43u8] + c)[0] == 43);
    assert((seq![45u8] + b)[0] == 45 && (seq![43u8] + b)[0] == 43);
}

proof fn lemma_signed(x: Seq<u8>)
    requires
        is_exponent(x),
    ensures
        signed_value(x) is Some,
{
}

/// A numeral below ten to the 308th is finite, and one above ten to the 309th is not, unless it is
/// zero.
pub proof fn only_what_is_small_is_finite(b: Seq<u8>)
    requires
        is_decimal(b),
    ensures
        scale(b) < 309 ==> is_finite_float(b),
        scale(b) > 309 && significant(b).len() > 0 ==> !is_finite_float(b),
        significant(b).len() == 0 ==> is_finite_float(b),
{
}

/// For others to read, a numeral has at least one digit before the point and one after it, and no
/// more zeros before than that; digits, sign and exponent are as they were, without a plus.
pub proof fn numerals_are_written_with_a_point(
    w: Seq<u8>,
    pointed: bool,
    f: Seq<u8>,
    exponent: Seq<u8>,
)
    requires
        is_numeral(w, pointed, f),
        exponent.len() == 0 || exponent[0] == 101 || exponent[0] == 69,
    ensures
        ({
            let b = numeral(w, pointed, f) + exponent;
            let z = leading(w) as int;
            let whole = if z == w.len() {
                seq![48u8]
            } else {
                w.skip(z)
            };
            let fraction = if f.len() == 0 {
                seq![48u8]
            } else {
                f
            };
            let written = whole + seq![46u8] + fraction + exponent;
            &&& json_numeral(b) == written
            &&& json_numeral(seq![43u8] + b) == written
            &&& json_numeral(seq![45u8] + b) == seq![45u8] + written
        }),
{
    let m = numeral(w, pointed, f);
    let b = m + exponent;
    assert(b.len() > 0 && b[0] != 43 && b[0] != 45) by {
        lemma_parts(w, pointed, f);
        assert(b[0] == m[0]);
    }
    lemma_written(w, pointed, f, exponent);
    lemma_signed_numeral(b);
}

/// Where the exponent of a numeral starts.
proof fn lemma_cut(w: Seq<u8>, pointed: bool, f: Seq<u8>, exponent: Seq<u8>)
    requires
        is_numeral(w, pointed, f),
        exponent.len() == 0 || exponent[0] == 101 || exponent[0] == 69,
    ensures
        ({
            let m = numeral(w, pointed, f);
            let b = m + exponent;
            &&& mantissa_end(b, 0) == m.len()
            &&& b.take(m.len() as int) == m
            &&& b.skip(m.len() as int) == exponent
        }),
{
    let m = numeral(w, pointed, f);
    let b = m + exponent;
    let p = m.len() as int;
    assert forall|j: int| 0 <= j < p implies #[trigger] b[j] != 101 && b[j] != 69 by {
        assert(b[j] == m[j]);
        if j < w.len() {
            assert(m[j] == w[j]);
        } else if j > w.len() {
            assert(m[j] == f[j - w.len() - 1]);
        }
    }
    if exponent.len() > 0 {
        assert(b[p] == exponent[0]);
        lemma_exponent_at(b, 0, p);
    } else {
        lemma_no_exponent(b, 0);
    }
    assert(b.take(p) =~= m);
    assert(b.skip(p) =~= exponent);
}

/// How a numeral without a sign is written.
proof fn lemma_written(w: Seq<u8>, pointed: bool, f: Seq<u8>, exponent: Seq<u8>)
    requires
        is_numeral(w, pointed, f),
        exponent.len() == 0 || exponent[0] == 101 || exponent[0] == 69,
    ensures
        ({
            let z = leading(w) as int;
            let whole = if z == w.len() {
                seq![48u8]
            } else {
                w.skip(z)
            };
            let fraction = if f.len() == 0 {
                seq![48u8]
            } else {
                f
            };
            json_numeral(numeral(w, pointed, f) + exponent) == whole + seq![46u8] + fraction
                + exponent
        }),
{
    let m = numeral(w, pointed, f);
    let b = m + exponent;
    lemma_parts(w, pointed, f);
    lemma_leading(w);
    lemma_cut(w, pointed, f, exponent);
    assert(b[0] == m[0]);
    let z = leading(w) as int;
    let point = w.len() as int;
    assert(zeros_end(m, 0) == z) by {
        assert forall|j: int| 0 <= j < z implies #[trigger] m[j] == 48 by {
            assert(m[j] == w[j]);
        }
        if z < w.len() {
            assert(m[z] == w[z]);
        }
        lemma_zeros(m, 0, z);
    }
    let whole = if z == w.len() {
        seq![48u8]
    } else {
        w.skip(z)
    };
    if z < point {
        assert(m.subrange(z, point) =~= w.skip(z));
    }
    assert(mantissa(b) == m);
    assert(point_of(m, 0) == point);
    let fraction = if f.len() == 0 {
        seq![48u8]
    } else {
        f
    };
    let tail = if point + 1 < m.len() {
        m.skip(point)
    } else {
        seq![46u8, 48u8]
    };
    assert(tail =~= seq![46u8] + fraction);
    assert(json_numeral(b) =~= Seq::<u8>::empty() + whole + tail + exponent);
    assert(Seq::<u8>::empty() + whole + tail + exponent =~= whole + seq![46u8] + fraction
        + exponent);
}

/// What a sign changes of how a numeral is written.
proof fn lemma_signed_numeral(b: Seq<u8>)
    requires
        b.len() > 0,
        b[0] != 43 && b[0] != 45,
    ensures
        json_numeral(seq![43u8] + b) == json_numeral(b),
        json_numeral(seq![45u8] + b) == seq![45u8] + json_numeral(b),
{
    assert((seq![45u8] + b).skip(1) =~= b);
    assert((seq![43u8] + b).skip(1) =~= b);
    assert((seq![45u8] + b)[0] == 45 && (seq![43u8] + b)[0] == 43);
    assert(unsigned_part(seq![45u8] + b) == b);
    assert(unsigned_part(seq![43u8] + b) == b);
    assert(unsigned_part(b) == b);
    assert(mantissa(seq![45u8] + b) == mantissa(b));
    assert(mantissa(seq![43u8] + b) == mantissa(b));
    assert(json_numeral(seq![45u8] + b) =~= seq![45u8] + json_numeral(b));
}

proof fn lemma_zeros(m: Seq<u8>, i: int, z: int)
    requires
        0 <= i <= z <= m.len(),
        forall|j: int| i <= j < z ==> #[trigger] m[j] == 48,
        z < m.len() ==> m[z] != 48,
    ensures
        zeros_end(m, i) == z,
    decreases z - i,
{
    if i < z {
        assert(m[i] == 48);
        lemma_zeros(m, i + 1, z);
    }
}

/// What is no number is printed as `NaN`, and the infinite as `inf`, with its minus, however they
/// were written.
pub proof fn words_are_printed_in_one_form(t: Seq<char>, u: Seq<u8>)
    requires
        encode_utf8(t) == u || encode_utf8(t) == seq![43u8] + u || encode_utf8(t) == seq![45u8] + u,
    ensures
        spells(u, "nan"@) ==> plain_form(t) == "NaN"@,
        spells(u, "inf"@) || spells(u, "infinity"@) ==> plain_form(t) == if encode_utf8(t)[0]
            == 45 {
            "-inf"@
        } else {
            "inf"@
        },
{
    reveal_strlit("nan");
    reveal_strlit("inf");
    reveal_strlit("-inf");
    reveal_strlit("infinity");
    let b = encode_utf8(t);
    assert((seq![43u8] + u).skip(1) =~= u);
    assert((seq![45u8] + u).skip(1) =~= u);
    if spells(u, "nan"@) || spells(u, "inf"@) || spells(u, "infinity"@) {
        assert(u.len() > 0);
        assert(u[0] != 43 && u[0] != 45);
        assert(unsigned_part(b) == u);
        if spells(u, "nan"@) {
            assert(crate::text::is_word(u, seq![110u8, 97, 110]));
        } else {
            if spells(u, "inf"@) {
                assert(crate::text::is_word(u, seq![105u8, 110, 102]));
            } else {
                assert(crate::text::is_word(u, seq![105u8, 110, 102, 105, 110, 105, 116, 121]));
            }
            assert(crate::text::lower(u[0]) == 105);
            assert(!crate::text::is_word(u, seq![110u8, 97, 110]));
            assert(crate::float_text::ascii_text(seq![45u8] + seq![105u8, 110, 102]) =~= "-inf"@);
            assert(crate::float_text::ascii_text(Seq::<u8>::empty() + seq![105u8, 110, 102])
                =~= "inf"@);
        }
    }
}

/// A finite numeral of ordinary size is printed in full, digits and a point and no exponent, and is
/// worth what it was.
pub proof fn numerals_are_printed_in_full(
    t: Seq<char>,
    w: Seq<u8>,
    pointed: bool,
    f: Seq<u8>,
    e: u8,
    x: Seq<u8>,
    i: int,
)
    requires
        is_numeral(w, pointed, f),
        e == 101 || e == 69,
        is_exponent(x),
        encode_utf8(t) == numeral(w, pointed, f) + seq![e] + x,
        is_finite_float(encode_utf8(t)),
        -323 <= scale(encode_utf8(t)) <= 309,
        0 <= i < plain_form(t).len(),
    ensures
        '0' <= plain_form(t)[i] <= '9' || plain_form(t)[i] == '.',
        significant(encode_utf8(plain_form(t))) == significant(encode_utf8(t)),
        significant(encode_utf8(t)).len() > 0 ==> scale(encode_utf8(plain_form(t))) == scale(
            encode_utf8(t),
        ),
{
    let b = encode_utf8(t);
    signs_and_exponents_are_read(w, pointed, f, e, x);
    a_numeral_is_digits_at_a_scale(w, pointed, f);
    lemma_parts(w, pointed, f);
    assert(b[0] == numeral(w, pointed, f)[0]);
    crate::float_laws::lemma_decimal_is_no_name(b);
    assert(crate::float_text::is_plain(b));
    crate::float_laws::printing_keeps_the_number(t);
    let s = significant(b);
    let p = crate::float_text::positional(s, scale(b));
    assert(minus(b) =~= seq![]);
    assert(are_digits(s));
    assert forall|j: int| 0 <= j < p.len() implies 48 <= #[trigger] p[j] <= 57 || p[j] == 46 by {
        lemma_positional(s, scale(b), j);
    }
    assert(seq![] + p =~= p);
    assert(plain_form(t) == crate::float_text::ascii_text(minus(b) + p));
    assert(plain_form(t)[i] == p[i] as char);
}

proof fn lemma_positional(d: Seq<u8>, k: int, j: int)
    requires
        are_digits(d),
        0 <= j < crate::float_text::positional(d, k).len(),
    ensures
        48 <= crate::float_text::positional(d, k)[j] <= 57 || crate::float_text::positional(d, k)[j]
            == 46,
{
    let p = crate::float_text::positional(d, k);
    if d.len() == 0 {
    } else if k <= 0 {
        let z = crate::float_text::zeros(-k);
        if j >= 2 + z.len() {
            assert(p[j] == d[j - 2 - z.len()]);
        } else if j >= 2 {
            assert(p[j] == z[j - 2]);
        }
    } else if k >= d.len() {
        if j < d.len() {
            assert(p[j] == d[j]);
        } else {
            assert(p[j] == crate::float_text::zeros(k - d.len())[j - d.len()]);
        }
    } else {
        if j < k {
            assert(p[j] == d[j]);
        } else if j > k {
            assert(p[j] == d[j - 1]);
        }
    }
}

/// A numeral of at most fifteen digits that is not tiny needs no rounding.
pub proof fn short_numerals_are_exact(t: Seq<char>)
    requires
        significant(encode_utf8(t)).len() <= 15,
        scale(encode_utf8(t)) >= -306,
    ensures
        crate::float_text::float_form(t) == plain_form(t),
{
}

} // verus!
