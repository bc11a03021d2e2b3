//! What holds of the form in which floats print.
use vstd::prelude::*;
use vstd::utf8::encode_utf8;

use crate::float::{
    digits_from, is_decimal, is_finite_float, lead_of,
    lemma_mantissa_end, mantissa, mantissa_end, overflows,
    places, point_of, scale, significant, trimmed, unsigned_part,
};
use crate::float_text::{
    ascii_text, float_form, is_infinite, is_nan, is_plain, is_printed, minus, needs_rounding,
    plain_form, positional, settled, zeros,
};
use crate::text::{ascii_bytes, is_digit, is_mantissa, is_word, lemma_ascii_bytes, lower};

verus! {

proof fn lemma_ascii_text(b: Seq<u8>)
    requires
        forall|i: int| 0 <= i < b.len() ==> #[trigger] b[i] < 128,
    ensures
        encode_utf8(ascii_text(b)) == b,
{
    let t = ascii_text(b);
    assert forall|i: int| 0 <= i < t.len() implies '\0' <= #[trigger] t[i] <= '\u{7f}' by {
        assert(t[i] == b[i] as char);
    }
    lemma_ascii_bytes(t);
    assert(ascii_bytes(t) =~= b);
}

proof fn lemma_no_letter(u: Seq<u8>, i: int)
    requires
        0 <= i <= u.len(),
        forall|j: int| i <= j < u.len() ==> lower(#[trigger] u[j]) != 101,
    ensures
        mantissa_end(u, i) == u.len(),
    decreases u.len() - i,
{
    if i < u.len() {
        assert(lower(u[i]) != 101);
        lemma_no_letter(u, i + 1);
    }
}

proof fn lemma_point(m: Seq<u8>, i: int, p: int)
    requires
        0 <= i <= p <= m.len(),
        forall|j: int| i <= j < p ==> #[trigger] m[j] != 46,
        p < m.len() ==> m[p] == 46,
    ensures
        point_of(m, i) == p,
    decreases p - i,
{
    if i < p {
        assert(m[i] != 46);
        lemma_point(m, i + 1, p);
    }
}

proof fn lemma_lead(m: Seq<u8>, i: int, p: int)
    requires
        0 <= i <= p <= m.len(),
        forall|j: int| i <= j < p ==> #[trigger] m[j] == 46 || m[j] == 48,
        p < m.len() ==> m[p] != 46 && m[p] != 48,
    ensures
        lead_of(m, i) == p,
    decreases p - i,
{
    if i < p {
        assert(m[i] == 46 || m[i] == 48);
        lemma_lead(m, i + 1, p);
    }
}

proof fn lemma_lead_found(m: Seq<u8>, i: int)
    requires
        0 <= i <= m.len(),
    ensures
        i <= lead_of(m, i) <= m.len(),
        lead_of(m, i) < m.len() ==> m[lead_of(m, i)] != 46 && m[lead_of(m, i)] != 48,
    decreases m.len() - i,
{
    if i < m.len() && (m[i] == 46 || m[i] == 48) {
        lemma_lead_found(m, i + 1);
    }
}

/// Where no point stands from `p` on, the digits from `i` on are those before `p` and the rest.
proof fn lemma_digits_join(m: Seq<u8>, i: int, p: int)
    requires
        0 <= i <= p <= m.len(),
        forall|j: int| i <= j < p ==> #[trigger] m[j] != 46,
    ensures
        digits_from(m, i) == m.subrange(i, p) + digits_from(m, p),
    decreases p - i,
{
    if i < p {
        assert(m[i] != 46);
        lemma_digits_join(m, i + 1, p);
        assert(seq![m[i]] + (m.subrange(i + 1, p) + digits_from(m, p)) =~= m.subrange(i, p)
            + digits_from(m, p));
    } else {
        assert(m.subrange(i, p) + digits_from(m, p) =~= digits_from(m, p));
    }
}

proof fn lemma_digits_are_digits(m: Seq<u8>, i: int)
    requires
        0 <= i <= m.len(),
        forall|j: int| 0 <= j < m.len() ==> is_digit(#[trigger] m[j]) || m[j] == 46,
    ensures
        forall|j: int|
            0 <= j < digits_from(m, i).len() ==> is_digit(#[trigger] digits_from(m, i)[j]),
        i < m.len() && m[i] != 46 ==> digits_from(m, i).len() > 0 && digits_from(m, i)[0] == m[i],
    decreases m.len() - i,
{
    if i < m.len() {
        lemma_digits_are_digits(m, i + 1);
        let rest = digits_from(m, i + 1);
        if m[i] != 46 {
            let d = digits_from(m, i);
            assert(d == seq![m[i]] + rest);
            assert forall|j: int| 0 <= j < d.len() implies is_digit(#[trigger] d[j]) by {
                if j > 0 {
                    assert(d[j] == rest[j - 1]);
                }
            }
        }
    }
}

proof fn lemma_trimmed(d: Seq<u8>)
    ensures
        trimmed(d).len() <= d.len(),
        trimmed(d) == d.take(trimmed(d).len() as int),
        trimmed(d).len() > 0 ==> trimmed(d).last() != 48,
    decreases d.len(),
{
    if d.len() > 0 && d.last() == 48 {
        lemma_trimmed(d.drop_last());
        assert(d.drop_last().take(trimmed(d).len() as int) =~= d.take(trimmed(d).len() as int));
    } else {
        assert(d.take(d.len() as int) =~= d);
    }
}

proof fn lemma_zeros_are_trimmed(d: Seq<u8>, n: int)
    requires
        n >= 0,
    ensures
        trimmed(d + zeros(n)) == trimmed(d),
    decreases n,
{
    if n > 0 {
        assert((d + zeros(n)).drop_last() =~= d + zeros(n - 1));
        lemma_zeros_are_trimmed(d, n - 1);
    } else {
        assert(d + zeros(n) =~= d);
    }
}

/// Significant digits are digits, and neither the first nor the last is zero.
pub(crate) proof fn lemma_significant(b: Seq<u8>)
    requires
        is_decimal(b),
    ensures
        forall|i: int| 0 <= i < significant(b).len() ==> is_digit(#[trigger] significant(b)[i]),
        significant(b).len() > 0 ==> significant(b)[0] != 48 && significant(b).last() != 48,
{
    let m = mantissa(b);
    let lead = lead_of(m, 0);
    lemma_lead_found(m, 0);
    lemma_digits_are_digits(m, lead);
    let all = digits_from(m, lead);
    lemma_trimmed(all);
    let d = significant(b);
    assert forall|i: int| 0 <= i < d.len() implies is_digit(#[trigger] d[i]) by {
        assert(d[i] == all[i]);
    }
    if d.len() > 0 {
        assert(lead < m.len());
        assert(d[0] == all[0]);
    }
}

/// What the digits of a number read as once they are written out.
#[verifier::rlimit(40)]
proof fn lemma_positional(d: Seq<u8>, k: int)
    requires
        forall|i: int| 0 <= i < d.len() ==> is_digit(#[trigger] d[i]),
        d.len() > 0 ==> d[0] != 48 && d.last() != 48,
    ensures
        ({
            let p = positional(d, k);
            &&& p.len() > 0
            &&& is_digit(p[0])
            &&& is_mantissa(p)
            &&& mantissa_end(p, 0) == p.len()
            &&& trimmed(digits_from(p, lead_of(p, 0))) == d
            &&& d.len() > 0 ==> places(p) == k
        }),
{
    let p = positional(d, k);
    let n = d.len() as int;
    if n == 0 {
        lemma_lead(p, 0, 1);
        assert(is_digit(p[0]));
    } else if k <= 0 {
        let lead = 2 - k;
        assert(p.skip(lead) =~= d);
        assert(p[lead] == d[0]);
        assert forall|j: int| 0 <= j < p.len() implies is_digit(#[trigger] p[j]) || (j == 1 && p[j]
            == 46) by {
            if j >= lead {
                assert(p[j] == d[j - lead]);
            }
        }
        lemma_point(p, 0, 1);
        lemma_lead(p, 0, lead);
        assert forall|j: int| lead <= j < p.len() implies #[trigger] p[j] != 46 by {
            assert(p[j] == d[j - lead]);
        }
        lemma_digits_join(p, lead, p.len() as int);
        assert(digits_from(p, lead) =~= d);
        assert(is_digit(p[0]));
    } else if k >= n {
        assert forall|j: int| 0 <= j < p.len() implies is_digit(#[trigger] p[j]) by {
            if j < n {
                assert(p[j] == d[j]);
            }
        }
        assert(p[0] == d[0]);
        lemma_point(p, 0, k);
        lemma_lead(p, 0, 0);
        lemma_digits_join(p, 0, k);
        assert(digits_from(p, 0) =~= p);
        lemma_zeros_are_trimmed(d, k - n);
    } else {
        assert forall|j: int| 0 <= j < p.len() implies (if j == k {
            #[trigger] p[j] == 46
        } else {
            is_digit(p[j])
        }) by {
            if j < k {
                assert(p[j] == d[j]);
            } else if j > k {
                assert(p[j] == d[j - 1]);
            }
        }
        assert(p[0] == d[0]);
        lemma_point(p, 0, k);
        lemma_lead(p, 0, 0);
        lemma_digits_join(p, 0, k);
        lemma_digits_join(p, k + 1, n + 1);
        assert(p.subrange(0, k) =~= d.take(k));
        assert(p.subrange(k + 1, n + 1) =~= d.skip(k));
        assert(digits_from(p, 0) =~= d);
    }
    assert(is_digit(p[0]));
    assert forall|j: int| 0 <= j < p.len() implies lower(#[trigger] p[j]) != 101 by {
        assert(is_digit(p[j]) || p[j] == 46);
    }
    lemma_no_letter(p, 0);
}

/// A decimal numeral is no name.
pub(crate) proof fn lemma_decimal_is_no_name(b: Seq<u8>)
    requires
        is_decimal(b),
    ensures
        !is_nan(b),
        !is_word(unsigned_part(b), seq![105u8, 110, 102]),
        !is_word(unsigned_part(b), seq![105u8, 110, 102, 105, 110, 105, 116, 121]),
{
    let u = unsigned_part(b);
    let m = mantissa(b);
    lemma_mantissa_end(u, 0);
    assert(m.len() > 0);
    assert(m[0] == u[0]);
    assert(is_digit(u[0]) || u[0] == 46);
}

/// What a plain decimal numeral reads as once it is written out.
proof fn lemma_written_out(b: Seq<u8>)
    requires
        is_plain(b),
    ensures
        ({
            let w = minus(b) + positional(significant(b), scale(b));
            &&& encode_utf8(ascii_text(w)) == w
            &&& is_decimal(w)
            &&& minus(w) == minus(b)
            &&& significant(w) == significant(b)
            &&& significant(b).len() > 0 ==> scale(w) == scale(b)
        }),
{
    let d = significant(b);
    let p = positional(d, scale(b));
    let w = minus(b) + p;
    lemma_significant(b);
    lemma_positional(d, scale(b));
    assert forall|i: int| 0 <= i < w.len() implies #[trigger] w[i] < 128 by {
        if i >= minus(b).len() {
            assert(w[i] == p[i - minus(b).len()]);
            assert(is_digit(p[i - minus(b).len()]) || p[i - minus(b).len()] == 46);
        }
    }
    lemma_ascii_text(w);
    assert(w[minus(b).len() as int] == p[0]);
    assert(unsigned_part(w) =~= p);
    assert(p.take(p.len() as int) =~= p);
}

/// Printing keeps the number: its sign, its significant digits and where the point stands among
/// them.
pub proof fn printing_keeps_the_number(t: Seq<char>)
    requires
        is_plain(encode_utf8(t)),
        is_finite_float(encode_utf8(t)),
    ensures
        ({
            let b = encode_utf8(t);
            let w = encode_utf8(plain_form(t));
            &&& is_finite_float(w)
            &&& minus(w) == minus(b)
            &&& significant(w) == significant(b)
            &&& significant(b).len() > 0 ==> scale(w) == scale(b)
        }),
{
    let b = encode_utf8(t);
    lemma_decimal_is_no_name(b);
    lemma_written_out(b);
}

proof fn lemma_names_are_final(sign: Seq<u8>)
    requires
        sign == seq![45u8] || sign == Seq::<u8>::empty(),
    ensures
        ({
            let w = sign + seq![105u8, 110, 102];
            &&& encode_utf8(ascii_text(w)) == w
            &&& is_word(unsigned_part(w), seq![105u8, 110, 102])
            &&& !is_nan(w)
            &&& minus(w) == sign
        }),
        is_nan(encode_utf8("NaN"@)),
{
    let w = sign + seq![105u8, 110, 102];
    lemma_ascii_text(w);
    assert(unsigned_part(w) =~= seq![105u8, 110, 102]);
    let n = seq![78u8, 97, 78];
    lemma_ascii_text(n);
    reveal_strlit("NaN");
    assert("NaN"@ =~= ascii_text(n));
}

/// What is printed prints as it is.
pub proof fn printing_is_final(t: Seq<char>)
    ensures
        plain_form(plain_form(t)) == plain_form(t),
        plain_form(float_form(t)) == float_form(t),
        !needs_rounding(encode_utf8(t)) ==> is_printed(float_form(t)),
{
    lemma_plain_is_final(t);
    if needs_rounding(encode_utf8(t)) {
        match crate::json::json_read(encode_utf8(crate::float::json_number(t))) {
            Ok(crate::json::JsonView::Float(s)) => lemma_plain_is_final(settled(s)),
            _ => {},
        }
    }
}

#[verifier::rlimit(40)]
proof fn lemma_plain_is_final(t: Seq<char>)
    ensures
        plain_form(plain_form(t)) == plain_form(t),
        !needs_rounding(encode_utf8(t)) ==> !needs_rounding(encode_utf8(plain_form(t))),
{
    let b = encode_utf8(t);
    if is_nan(b) || is_infinite(b) {
        lemma_name_is_final(t);
    } else if is_plain(b) {
        lemma_written_out_is_final(t);
    } else {
        assert(plain_form(t) == t);
    }
}

proof fn lemma_name_is_final(t: Seq<char>)
    requires
        is_nan(encode_utf8(t)) || is_infinite(encode_utf8(t)),
    ensures
        plain_form(plain_form(t)) == plain_form(t),
        !needs_rounding(encode_utf8(plain_form(t))),
{
    let b = encode_utf8(t);
    lemma_names_are_final(minus(b));
    if is_nan(b) {
        lemma_name_needs_no_rounding(encode_utf8("NaN"@));
    } else {
        lemma_name_needs_no_rounding(minus(b) + seq![105u8, 110, 102]);
    }
}

proof fn lemma_name_needs_no_rounding(w: Seq<u8>)
    requires
        is_nan(w) || is_word(unsigned_part(w), seq![105u8, 110, 102]),
    ensures
        !needs_rounding(w),
{
    if is_decimal(w) {
        lemma_decimal_is_no_name(w);
    }
}

proof fn lemma_written_out_is_final(t: Seq<char>)
    requires
        is_plain(encode_utf8(t)),
        !is_infinite(encode_utf8(t)),
    ensures
        plain_form(plain_form(t)) == plain_form(t),
        !needs_rounding(encode_utf8(t)) ==> !needs_rounding(encode_utf8(plain_form(t))),
{
    let b = encode_utf8(t);
    let w = minus(b) + positional(significant(b), scale(b));
    lemma_decimal_is_no_name(b);
    lemma_written_out(b);
    lemma_decimal_is_no_name(w);
    assert(plain_form(t) == ascii_text(w));
    assert(is_plain(w));
    assert(!overflows(w));
    assert(positional(significant(w), scale(w)) == positional(significant(b), scale(b)));
}

} // verus!
