//! What the files beside the log are called, which of them are leftovers, and how the description
//! of a checkpoint is read.
use vstd::prelude::*;
use vstd::utf8::{decode_utf8, encode_utf8, valid_utf8};

use crate::bytes::{ends_with, starts_with};
use crate::json::{json_read, member, JsonView};
use crate::text::{
    ascii_bytes, dec_text, digits_value, lemma_ascii_bytes, lemma_dec_text_ascii,
    lemma_dec_text_digits, lemma_dec_text_value, power_of_ten,
};
use crate::wal::files::{
    leftover, meta_file, meta_of, snapshot_file, snapshot_prefix, tmp_suffix, CkptMetaView,
    META_NAME,
};
use crate::wal::segments::{segment_name, six_digits, zeros};

verus! {

/// A file is left over where it is a temporary one, or a snapshot other than the one to keep.
pub proof fn leftovers_are_temporary_or_old(name: Seq<u8>, kept: Option<Seq<char>>)
    ensures
        leftover(name, kept) <==> {
            ||| name.len() > 4 && encode_utf8(".tmp"@).is_suffix_of(name)
            ||| valid_utf8(name) && encode_utf8("checkpoint-"@).is_prefix_of(name) && kept != Some(
                decode_utf8(name),
            )
        },
{
    reveal_strlit(".tmp");
    reveal_strlit("checkpoint-");
    lemma_ascii_bytes(".tmp"@);
    lemma_ascii_bytes("checkpoint-"@);
    assert(ascii_bytes(".tmp"@) =~= tmp_suffix());
    assert(ascii_bytes("checkpoint-"@) =~= snapshot_prefix());
    if name.len() >= 4 {
        assert(name.skip(name.len() - 4) =~= name.subrange(name.len() - 4, name.len() as int));
    }
    if name.len() >= 11 {
        assert(name.take(11) =~= name.subrange(0, 11));
    }
    assert(ends_with(name, tmp_suffix()) == tmp_suffix().is_suffix_of(name));
    assert(starts_with(name, snapshot_prefix()) == snapshot_prefix().is_prefix_of(name));
}

proof fn lemma_zeros(k: int, d: Seq<u8>)
    requires
        digits_value(d) is Some,
    ensures
        digits_value(ascii_bytes(zeros(k)) + d) == digits_value(d),
    decreases k,
{
    let z = ascii_bytes(zeros(k));
    if k <= 0 {
        assert(z + d =~= d);
    } else {
        lemma_zeros(k - 1, d);
        let rest = ascii_bytes(zeros(k - 1)) + d;
        assert(z + d =~= seq![48u8] + rest);
        lemma_lead(rest);
    }
}

proof fn lemma_lead(d: Seq<u8>)
    requires
        digits_value(d) is Some,
    ensures
        digits_value(seq![48u8] + d) == digits_value(d),
{
    let zero = seq![48u8];
    assert(digits_value(zero) == Some(0nat));
    crate::text_laws::digits_write_a_number(zero, d);
    assert(0 * power_of_ten(d.len()) == 0);
}

/// Numbers in file names have six digits, with zeros before them where they are smaller, and more
/// where they are larger; they read back as the number.
pub proof fn numbers_in_names_have_six_digits(n: nat)
    ensures
        n < 1000000 ==> six_digits(n).len() == 6,
        n >= 100000 ==> six_digits(n) == dec_text(n),
        digits_value(encode_utf8(six_digits(n))) == Some(n),
{
    lemma_dec_text_ascii(n);
    lemma_dec_text_value(n);
    lemma_zeros(6 - dec_text(n).len(), ascii_bytes(dec_text(n)));
    let s = six_digits(n);
    assert(vstd::utf8::is_ascii_chars(s)) by {
        assert forall|i: int| 0 <= i < s.len() implies 0 <= (#[trigger] s[i] as nat) < 128 by {
            if i >= zeros(6 - dec_text(n).len()).len() {
                assert(s[i] == dec_text(n)[i - zeros(6 - dec_text(n).len()).len()]);
            }
        }
    }
    lemma_ascii_bytes(s);
    assert(ascii_bytes(s) =~= ascii_bytes(zeros(6 - dec_text(n).len())) + ascii_bytes(dec_text(n)));
    if n < 1000000 {
        assert(power_of_ten(6) == 1000000) by {
            reveal_with_fuel(power_of_ten, 7);
        }
        lemma_dec_text_digits(n, 6);
    }
    if n >= 100000 {
        lemma_long(n);
        assert(s =~= dec_text(n));
    }
}

proof fn lemma_long(n: nat)
    requires
        n >= 100000,
    ensures
        dec_text(n).len() >= 6,
{
    reveal_with_fuel(dec_text, 6);
    assert(n / 10 >= 10000);
    assert(n / 10 / 10 >= 1000);
    assert(n / 10 / 10 / 10 >= 100);
    assert(n / 10 / 10 / 10 / 10 >= 10);
}

/// A segment is `wal-`, its number and `.log`; a snapshot is `checkpoint-`, its version, a point and
/// its format. No two versions have the same file.
pub proof fn files_are_named_by_number(a: u64, b: u64, format: Seq<char>)
    ensures
        segment_name(a) == "wal-"@ + six_digits(a as nat) + ".log"@,
        snapshot_file(a, format) == "checkpoint-"@ + six_digits(a as nat) + "."@ + format,
        snapshot_file(a, format) == snapshot_file(b, format) ==> a == b,
        META_NAME@ == "checkpoint.meta"@,
{
    if snapshot_file(a, format) == snapshot_file(b, format) {
        let (x, y) = (six_digits(a as nat), six_digits(b as nat));
        let head = "checkpoint-"@;
        let (f, g) = (snapshot_file(a, format), snapshot_file(b, format));
        assert(f.len() == head.len() + x.len() + "."@.len() + format.len());
        assert(x.len() == y.len());
        assert(x =~= f.subrange(head.len() as int, (head.len() + x.len()) as int));
        assert(y =~= g.subrange(head.len() as int, (head.len() + y.len()) as int));
        numbers_in_names_have_six_digits(a as nat);
        numbers_in_names_have_six_digits(b as nat);
    }
}

/// Whether the member is a text.
pub open spec fn tells_text(j: JsonView, name: Seq<char>, t: Seq<char>) -> bool {
    member(j, name) == Some(JsonView::Str(t))
}

/// Whether the member is a number of 64 bits without a sign.
pub open spec fn tells_number(j: JsonView, name: Seq<char>, n: u64) -> bool {
    member(j, name) == Some(JsonView::Int(n as int))
}

/// A description is read part by part, each by its own name; it is read exactly where all five are
/// there and are what they should be.
pub proof fn a_description_is_read_by_name(j: JsonView, m: CkptMetaView)
    ensures
        meta_of(j) == Ok::<CkptMetaView, Seq<char>>(m) <==> tells_text(j, "snapshot"@, m.snapshot)
            && tells_text(j, "format"@, m.format) && tells_number(j, "version"@, m.version)
            && tells_number(j, "tx_counter"@, m.tx_counter) && tells_number(
            j,
            "first_segment"@,
            m.first_segment,
        ),
{
}

/// Where a part is missing, or is not what it should be, the first such one is told by its name.
pub proof fn a_missing_part_is_told(j: JsonView)
    ensures
        ({
            let no_text = |name: Seq<char>| forall|t: Seq<char>| !#[trigger] tells_text(j, name, t);
            let no_number = |name: Seq<char>| forall|n: u64| !#[trigger] tells_number(j, name, n);
            meta_of(j) matches Err(e) ==> e == "checkpoint.meta: missing '"@ + (if no_text(
                "snapshot"@,
            ) {
                "snapshot"@
            } else if no_text("format"@) {
                "format"@
            } else if no_number("version"@) {
                "version"@
            } else if no_number("tx_counter"@) {
                "tx_counter"@
            } else {
                "first_segment"@
            }) + "'"@
        }),
{
    if meta_of(j) is Err {
        match member(j, "snapshot"@) {
            Some(JsonView::Str(t)) => assert(tells_text(j, "snapshot"@, t)),
            _ => {},
        }
        match member(j, "format"@) {
            Some(JsonView::Str(t)) => assert(tells_text(j, "format"@, t)),
            _ => {},
        }
        match member(j, "version"@) {
            Some(JsonView::Int(i)) => assert(0 <= i <= u64::MAX ==> tells_number(
                j,
                "version"@,
                i as u64,
            )),
            _ => {},
        }
        match member(j, "tx_counter"@) {
            Some(JsonView::Int(i)) => assert(0 <= i <= u64::MAX ==> tells_number(
                j,
                "tx_counter"@,
                i as u64,
            )),
            _ => {},
        }
    }
}

/// A description that is no JSON is told to be so.
pub proof fn an_unreadable_description_is_told(bytes: Seq<u8>)
    ensures
        match json_read(bytes) {
            Ok(j) => meta_file(bytes) == meta_of(j),
            Err(e) => meta_file(bytes) == Err::<CkptMetaView, Seq<char>>("checkpoint.meta: "@ + e),
        },
{
}

} // verus!
