//! Texts: numbers, expressions, source text, events and what is printed.
use vstd::prelude::*;
use vstd::utf8::encode_utf8;

use crate::bytes::{has_prefix, has_suffix, push_le4, push_le8, read_le4, read_le8};
use crate::events::frame;
use crate::expr::{byte_item, decode, item_byte, Decoded, Expr, ExprTree, Tag};
use crate::float::check_finite;
use crate::json::Json;
use crate::laws::answers::{counts, flag_at, marks, number_at};
use crate::laws::sessions::{lemma_members, size, tells, text_at};
use crate::float_text::print_plain;
use crate::output::{print_box, print_execution, print_header, print_loaded, print_result};
use crate::steps::{exec_to_text, lines, lines_from};
use crate::text::{
    check_float, concat, dec_text, i64_from_text, i64_text, parse_u64, u64_text,
};
use crate::transaction::{EngineError, Event, TxId};
use crate::wrap::{
    is_txid, make_txid, ns_loc_prefix, parse_all, rewrite, to_text, unwrap_execs, unwrap_text,
    wrap_execs, SExpr,
};

verus! {

/// A number that is written reads back as the same.
pub proof fn numbers_read_back(n: u64, s: String, b: &[u8], r: Option<u64>)
    requires
        call_ensures(u64_text, (n,), s),
        b@ == encode_utf8(s@),
        call_ensures(parse_u64, (b,), r),
    ensures
        r == Some(n),
{
    crate::text::lemma_dec_text_value(n as nat);
    crate::text::lemma_dec_text_ascii(n as nat);
    assert(b@[0] == dec_text(n as nat)[0] as u8);
}

/// A number with a sign that is written reads back as the same.
pub proof fn signed_numbers_read_back(n: i64, s: String, t: &str, r: Result<i64, String>)
    requires
        call_ensures(i64_text, (n,), s),
        t@ == s@,
        call_ensures(i64_from_text, (t,), r),
    ensures
        r == Ok::<i64, String>(n),
{
    crate::text::lemma_int_text_value(n as int);
    crate::text::i64_is_signed_value(t@);
}

/// Digits, with a plus or without, are read as the number that they write, where it fits; nothing
/// else is read as a number.
pub proof fn digits_are_read(b: &[u8], d: Seq<u8>, r: Option<u64>)
    requires
        call_ensures(parse_u64, (b,), r),
        b@ == d || b@ == seq![43u8] + d,
        d.len() > 0 ==> d[0] != 43,
    ensures
        r is Some <==> (crate::text::digits_value(d) matches Some(v) && v <= u64::MAX),
        r matches Some(n) ==> crate::text::digits_value(d) == Some(n as nat),
{
    assert((seq![43u8] + d).skip(1) =~= d);
    assert((seq![43u8] + d)[0] == 43);
}

/// Two texts one after the other.
pub proof fn texts_are_joined(a: &str, b: &str, r: String)
    requires
        call_ensures(concat, (a, b), r),
    ensures
        r@ == a@ + b@,
{
}

/// A finite number is a number.
pub proof fn finite_numbers_are_numbers(b: &[u8], finite: bool, number: bool)
    requires
        call_ensures(check_finite, (b,), finite),
        call_ensures(check_float, (b,), number),
    ensures
        finite ==> number,
{
    crate::float::finite_floats_are_numerals(b@);
}

/// Bytes start and end with what they start and end with.
pub proof fn prefixes_and_suffixes_are_found(b: &[u8], x: &[u8], p: bool, s: bool)
    requires
        call_ensures(has_prefix, (b, x), p),
        call_ensures(has_suffix, (b, x), s),
    ensures
        p <==> x@.is_prefix_of(b@),
        s <==> x@.is_suffix_of(b@),
{
    if b@.len() >= x@.len() {
        assert(b@.take(x@.len() as int) =~= b@.subrange(0, x@.len() as int));
        assert(b@.skip(b@.len() - x@.len()) =~= b@.subrange(
            b@.len() - x@.len(),
            b@.len() as int,
        ));
    }
}

/// Numbers in records are read back from where they were put.
pub proof fn numbers_in_records_read_back(
    out: &mut Vec<u8>,
    n: u32,
    more: &mut Vec<u8>,
    m: u64,
    b: &[u8],
    off: usize,
    r: u32,
    s: u64,
)
    requires
        call_ensures(push_le4, (out, n), ()),
        old(more)@ == final(out)@,
        call_ensures(push_le8, (more, m), ()),
        b@ == final(more)@,
        off == old(out)@.len(),
        off + 12 <= usize::MAX,
        call_ensures(read_le4, (b, off), r),
        call_ensures(read_le8, (b, (off + 4) as usize), s),
    ensures
        r == n,
        s == m,
        b@.len() == off + 12,
{
    crate::bytes::le4_roundtrip(n as int);
    crate::bytes::le8_roundtrip(m as int);
    assert(b@.subrange(off as int, off + 4) =~= crate::bytes::le4_bytes(n as int));
    assert(b@.subrange(off + 4, off + 12) =~= crate::bytes::le8_bytes(m as int));
}

/// A tag is one byte, and that byte is the tag.
pub proof fn tags_are_bytes(tag: Tag, b: u8, back: Tag)
    requires
        call_ensures(item_byte, (tag,), b),
        call_ensures(byte_item, (b,), back),
        match tag {
            Tag::NewVar => true,
            Tag::VarRef(i) => i < 64,
            Tag::SymbolSize(n) => 0 < n < 64,
            Tag::Arity(a) => a < 64,
        },
    ensures
        back == tag,
        tag matches Tag::Arity(a) ==> b == a,
        tag matches Tag::VarRef(i) ==> b == 128 + i,
        tag matches Tag::SymbolSize(n) ==> b == 192 + n,
        tag is NewVar ==> b == 192,
{
    crate::expr::tag_roundtrip(tag);
}

/// An expression is read from its bytes, wherever they stand, up to their end.
pub proof fn expressions_are_read_from_their_bytes(
    s: &[u8],
    off: usize,
    t: ExprTree,
    r: Decoded,
)
    requires
        call_ensures(decode, (s, off), r),
        crate::expr::encodable(t),
        off + crate::expr::encode(t).len() <= s@.len(),
        s@.subrange(off as int, off + crate::expr::encode(t).len() as int) == crate::expr::encode(t),
    ensures
        r matches Decoded::Tree(e, end) && e@ == t && end == off + crate::expr::encode(t).len(),
{
    crate::expr::read_of_encode(s@, off as int, t);
}

/// An expression is ground where no variable is in it.
pub proof fn ground_expressions_hold_no_variable(e: &Expr, r: bool)
    requires
        call_ensures(Expr::is_ground, (e,), r),
    ensures
        *e is NewVar || *e is VarRef ==> !r,
        *e is Symbol ==> r,
        *e matches Expr::List(items) ==> (r <==> forall|i: int|
            0 <= i < items@.len() ==> crate::expr::ground((#[trigger] items@[i])@)),
{
    match e {
        Expr::List(items) => {
            let view = crate::expr::exprs_view(items@);
            assert(forall|i: int| 0 <= i < items@.len() ==> #[trigger] view[i] == items@[i]@);
            if forall|i: int| 0 <= i < items@.len() ==> crate::expr::ground(
                (#[trigger] items@[i])@,
            ) {
                assert forall|i: int| 0 <= i < view.len() implies crate::expr::ground(
                    #[trigger] view[i],
                ) by {
                    assert(view[i] == items@[i]@);
                }
            } else {
                let i = choose|i: int|
                    0 <= i < items@.len() && !crate::expr::ground((#[trigger] items@[i])@);
                assert(!crate::expr::ground(view[i]));
            }
        },
        _ => {},
    }
}

/// The lines of a text, none left out.
pub proof fn lines_are_listed(text: &str, r: Vec<String>)
    requires
        call_ensures(lines, (text,), r),
    ensures
        r@.map_values(|s: String| s@) == lines_from(text@, 0),
{
    assert(r@.map_values(|s: String| s@) =~= lines_from(text@, 0));
}

/// An exec is shown without the line ends behind it, and otherwise as it is.
pub proof fn execs_are_shown_without_line_ends(listing: &[u8], r: String)
    requires
        call_ensures(exec_to_text, (listing,), r),
    ensures
        ({
            let t = crate::text::readable_text(listing@);
            &&& r@.is_prefix_of(t)
            &&& r@.len() > 0 ==> r@.last() != '\n'
            &&& forall|i: int| r@.len() <= i < t.len() ==> #[trigger] t[i] == '\n'
        }),
{
    crate::steps_laws::only_line_ends_are_cut(crate::text::readable_text(listing@));
}

/// What is printed reads back as the same expression.
pub proof fn printed_expressions_read_back(
    e: &SExpr,
    s: String,
    t: &str,
    r: Result<Vec<SExpr>, String>,
)
    requires
        call_ensures(to_text, (e,), s),
        t@ == s@,
        call_ensures(parse_all, (t,), r),
        crate::wrap_laws::readable(e@),
    ensures
        r matches Ok(es) && es@.len() == 1 && es@[0]@ == e@,
{
    crate::wrap_laws::parse_undoes_print(e@);
    let es = r->Ok_0;
    let view = crate::wrap::sexprs_view(es@);
    assert(view == seq![e@]);
    assert(view[0] == es@[0]@);
}

/// What is wrapped for a transaction and unwrapped again is the same, and where it holds an exec the
/// transaction is found.
pub proof fn unwrapping_finds_the_transaction(
    e: &mut SExpr,
    ns: &str,
    f: &mut SExpr,
    r: Option<String>,
)
    requires
        call_ensures(wrap_execs, (e, ns), ()),
        old(f)@ == final(e)@,
        call_ensures(unwrap_execs, (f,), r),
        crate::transaction::txid_form(ns@),
    ensures
        final(f)@ == old(e)@,
        r is Some <==> crate::wrap_laws::has_exec(old(e)@),
        r matches Some(t) ==> t@ == ns@,
{
    crate::wrap_laws::unwrap_undoes_wrap(old(e)@, ns@);
    crate::wrap_laws::wrapped_is_attributed(old(e)@, ns@);
}

/// A source that is rewritten for a transaction is shown as it was, between single spaces; a source
/// that cannot be read is refused, and a line that cannot be read is shown as it is.
pub proof fn rewriting_is_not_seen(
    src: &str,
    ns: &str,
    w: Result<String, String>,
    line: &str,
    r: (String, Option<String>),
    p: Result<Vec<SExpr>, String>,
)
    requires
        call_ensures(rewrite, (src, ns), w),
        call_ensures(parse_all, (src,), p),
        w matches Ok(t) ==> line@ == t@,
        w is Err ==> line@ == src@,
        call_ensures(unwrap_text, (line,), r),
        crate::transaction::txid_form(ns@),
    ensures
        w is Ok <==> p is Ok,
        p matches Ok(es) ==> r.0@ == crate::wrap::joined(crate::wrap::sexprs_view(es@), 0),
        p is Err ==> r.0@ == src@ && r.1 is None,
{
    crate::wrap_laws::unwrap_undoes_rewrite(src@, ns@);
}

/// An identifier is accepted where it is one, and refused with a reason where it is not; one that
/// is accepted is kept as it is.
pub proof fn identifiers_are_accepted_as_they_are(id: String, r: Result<TxId, String>)
    requires
        call_ensures(TxId::new, (id,), r),
    ensures
        r is Ok <==> crate::transaction::valid_txid(id@),
        r matches Ok(t) ==> t@ == id@,
        r matches Err(e) ==> e@ == crate::transaction::txid_error(id@),
{
}

/// Whatever is accepted as an identifier looks like one.
pub proof fn accepted_identifiers_look_like_one(id: String, s: &str, a: Result<TxId, String>, b: bool)
    requires
        call_ensures(TxId::new, (id,), a),
        s@ == id@,
        call_ensures(is_txid, (s,), b),
    ensures
        a is Ok ==> b,
        b && encode_utf8(id@).len() <= 63 ==> a is Ok,
{
}

/// Errors have the status of their kind, and what a client is told does not depend on the detail.
pub proof fn errors_hide_their_detail(e: &EngineError, status: u16, text: String)
    requires
        call_ensures(EngineError::status_code, (e,), status),
        call_ensures(EngineError::safe_message, (e,), text),
    ensures
        *e is WalPoisoned ==> status == 503 && text@
            == "write error on disk; writes refused (reads still serve)"@,
        *e is LoadFailed ==> status == 422 && text@ == "transaction rejected by the kernel loader"@,
{
}

/// Events are named by what happened.
pub proof fn events_are_named(ev: &Event, r: &'static str)
    requires
        call_ensures(Event::name, (ev,), r),
    ensures
        *ev is Tx ==> r@ == "tx"@,
        *ev is Step ==> r@ == "step"@,
        *ev is Quiescent ==> r@ == "quiescent"@,
        *ev is Idle ==> r@ == "idle"@,
        *ev is Delta ==> r@ == "delta"@,
        *ev is Abort ==> r@ == "abort"@,
        *ev is Budget ==> r@ == "budget"@,
{
}

/// The end of a transaction is told with every field under its name.
pub proof fn an_end_is_told_with_every_field(ev: &Event, j: Json)
    requires
        call_ensures(Event::data, (ev,), j),
    ensures
        *ev matches Event::Tx { tx, count, version } ==> size(j) == 3 && tells(j, "tx"@, tx@)
            && counts(j, "count"@, count as int) && counts(j, "version"@, version as int),
        *ev matches Event::Quiescent { tx, version } ==> size(j) == 2 && tells(j, "tx"@, tx@)
            && counts(j, "version"@, version as int),
        *ev matches Event::Idle { version } ==> size(j) == 1 && counts(
            j,
            "version"@,
            version as int,
        ),
        *ev matches Event::Abort { tx, reason, version } ==> size(j) == 3 && tells(j, "tx"@, tx@)
            && tells(j, "reason"@, reason@) && counts(j, "version"@, version as int),
        *ev matches Event::Budget { tx, steps, version } ==> size(j) == 3 && tells(j, "tx"@, tx@)
            && counts(j, "steps"@, steps as int) && counts(j, "version"@, version as int),
{
    lemma_members(j);
    match *ev {
        Event::Tx { tx, count, version } => {
            assert(text_at(j, 0, "tx"@, tx@));
            assert(number_at(j, 1, "count"@, count as int));
            assert(number_at(j, 2, "version"@, version as int));
        },
        Event::Quiescent { tx, version } => {
            assert(text_at(j, 0, "tx"@, tx@));
            assert(number_at(j, 1, "version"@, version as int));
        },
        Event::Idle { version } => {
            assert(number_at(j, 0, "version"@, version as int));
        },
        Event::Abort { tx, reason, version } => {
            assert(text_at(j, 0, "tx"@, tx@));
            assert(text_at(j, 1, "reason"@, reason@));
            assert(number_at(j, 2, "version"@, version as int));
        },
        Event::Budget { tx, steps, version } => {
            assert(text_at(j, 0, "tx"@, tx@));
            assert(number_at(j, 1, "steps"@, steps as int));
            assert(number_at(j, 2, "version"@, version as int));
        },
        _ => {},
    }
}

/// A step is told with every field under its name.
pub proof fn a_step_is_told_with_every_field(ev: &Event, j: Json)
    requires
        call_ensures(Event::data, (ev,), j),
    ensures
        *ev matches Event::Step { tx, exec_text, touched, new, us, version } ==> size(j) == 6
            && tells(j, "tx"@, tx@) && tells(j, "exec"@, exec_text@) && counts(
            j,
            "touched"@,
            touched as int,
        ) && marks(j, "new"@, new) && counts(j, "us"@, us as int) && counts(
            j,
            "version"@,
            version as int,
        ),
{
    lemma_members(j);
    match *ev {
        Event::Step { tx, exec_text, touched, new, us, version } => {
            assert(text_at(j, 0, "tx"@, tx@));
            assert(text_at(j, 1, "exec"@, exec_text@));
            assert(number_at(j, 2, "touched"@, touched as int));
            assert(flag_at(j, 3, "new"@, new));
            assert(number_at(j, 4, "us"@, us as int));
            assert(number_at(j, 5, "version"@, version as int));
        },
        _ => {},
    }
}

/// An event is sent as its name, its data and an empty line.
pub proof fn events_are_sent_in_lines(event: &str, data: &str, r: String)
    requires
        call_ensures(frame, (event, data), r),
    ensures
        r@ == "event: "@ + event@ + "\ndata: "@ + data@ + "\n\n"@,
{
}

/// A box is printed row by row: its title, its lines in order, and its lower edge.
pub proof fn boxes_are_printed_row_by_row(title: &str, ls: &Vec<String>, r: String)
    requires
        call_ensures(print_box, (title, ls), r),
    ensures
        r@ == crate::output::box_rows(title@, ls@.map_values(|s: String| s@)).map_values(
            |row: Seq<char>| row.push('\n'),
        ).flatten(),
{
    assert(crate::transaction::texts_view(ls@) =~= ls@.map_values(|s: String| s@));
    crate::output_laws::rows_are_printed_in_order(
        crate::output::box_rows(title@, ls@.map_values(|s: String| s@)),
    );
}

/// A result is printed in a box of all its lines.
pub proof fn results_are_printed_whole(result: &str, r: String)
    requires
        call_ensures(print_result, (result,), r),
    ensures
        r@ == crate::output::box_rows("Result"@, lines_from(result@, 0)).map_values(
            |row: Seq<char>| row.push('\n'),
        ).flatten(),
{
    crate::output_laws::rows_are_printed_in_order(
        crate::output::box_rows("Result"@, lines_from(result@, 0)),
    );
}

/// What was loaded is counted.
pub proof fn what_is_loaded_is_counted(n: usize, r: String)
    requires
        call_ensures(print_loaded, (n,), r),
    ensures
        r@ == "✓ Loaded "@ + dec_text(n as nat) + " expressions\n\n"@,
{
}

/// The header is printed row by row.
pub proof fn the_header_is_printed_row_by_row(file: &str, output: &str, r: String)
    requires
        call_ensures(print_header, (file, output), r),
    ensures
        r@ == crate::output::header_rows(file@, output@).map_values(
            |row: Seq<char>| row.push('\n'),
        ).flatten(),
{
    crate::output_laws::rows_are_printed_in_order(
        crate::output::header_rows(file@, output@),
    );
}

/// A report is printed in a box of five lines, each with the number that it is of.
pub proof fn reports_are_printed_whole(
    steps: usize,
    elapsed_ms: u128,
    unifications: usize,
    writes: usize,
    transitions: usize,
    r: String,
)
    requires
        call_ensures(print_execution, (steps, elapsed_ms, unifications, writes, transitions), r),
    ensures
        r@ == crate::output::box_rows(
            "Execution"@,
            seq![
                "Steps: "@ + dec_text(steps as nat),
                "Time: "@ + dec_text(elapsed_ms as nat) + " ms"@,
                "Unifications: "@ + dec_text(unifications as nat),
                "Writes: "@ + dec_text(writes as nat),
                "Transitions: "@ + dec_text(transitions as nat),
            ],
        ).map_values(|row: Seq<char>| row.push('\n')).flatten() + "\n"@,
{
    crate::output_laws::a_report_tells_each_number(
        steps as nat,
        elapsed_ms as nat,
        unifications as nat,
        writes as nat,
        transitions as nat,
    );
    let ls = crate::output::execution_lines(
        steps as nat,
        elapsed_ms as nat,
        unifications as nat,
        writes as nat,
        transitions as nat,
    );
    assert(ls =~= seq![
        "Steps: "@ + dec_text(steps as nat),
        "Time: "@ + dec_text(elapsed_ms as nat) + " ms"@,
        "Unifications: "@ + dec_text(unifications as nat),
        "Writes: "@ + dec_text(writes as nat),
        "Transitions: "@ + dec_text(transitions as nat),
    ]);
    crate::output_laws::rows_are_printed_in_order(crate::output::box_rows("Execution"@, ls));
}

/// The bytes that the locations of a transaction start with tell its identifier.
pub proof fn location_bytes_tell_the_identifier(txid: &str, r: Vec<u8>)
    requires
        call_ensures(ns_loc_prefix, (txid,), r),
        encode_utf8(txid@).len() < 64,
    ensures
        r@.len() == encode_utf8(txid@).len() + 2,
        r@[0] == 2,
        r@[1] == 192 + encode_utf8(txid@).len(),
        r@.skip(2) == encode_utf8(txid@),
{
    assert(r@.skip(2) =~= encode_utf8(txid@));
}

/// A made identifier is `tx`, its count, an underscore and eight characters that write its number.
pub proof fn made_identifiers_have_their_form(count: u64, n: u64, r: TxId)
    requires
        call_ensures(make_txid, (count, n), r),
    ensures
        ("tx"@ + dec_text(count as nat) + "_"@).is_prefix_of(r@),
        r@.len() == "tx"@.len() + dec_text(count as nat).len() + "_"@.len() + 8,
        crate::transaction::valid_txid(r@),
{
    crate::wrap::generated_ids_are_valid(count, n);
    crate::parse_laws::suffixes_write_a_number(n as int, 8, 0);
    let head = "tx"@ + dec_text(count as nat) + "_"@;
    assert(r@.subrange(0, head.len() as int) =~= head);
}

/// A number is printed in one form: what is printed is printed again as it is.
pub proof fn printing_twice_is_printing_once(t: &str, a: String, u: &str, b: String)
    requires
        call_ensures(print_plain, (t,), a),
        u@ == a@,
        call_ensures(print_plain, (u,), b),
    ensures
        b@ == a@,
{
    crate::float_laws::printing_is_final(t@);
}

} // verus!
