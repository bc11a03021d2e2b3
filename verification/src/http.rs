//! The HTTP surface: routes, query strings, and what is answered.
use vstd::prelude::*;
use vstd::utf8::{decode_utf8, encode_utf8, valid_utf8};

use crate::bytes::{has_prefix, starts_with};
use crate::json::{json_text, json_to_text, object, put, Json, JsonView};
use crate::table::Table;
use crate::text::{concat, str_eq, string_from_utf8};
use crate::transaction::{TxId, TxOk};
use crate::wrap::{gen_txid, rewrite, rewritten, txid_text};

verus! {

/// What a request asks for.
#[derive(Clone, Copy, Debug, PartialEq, Eq, Structural)]
pub enum Route {
    Run,
    Events,
    Export,
    Stats,
    NotFound,
}

pub open spec fn route_spec(method: Seq<char>, path: Seq<char>) -> Route {
    if method == "POST"@ && path == "/run"@ {
        Route::Run
    } else if method == "GET"@ && path == "/events"@ {
        Route::Events
    } else if method == "GET"@ && path == "/export"@ {
        Route::Export
    } else if method == "GET"@ && path == "/stats"@ {
        Route::Stats
    } else {
        Route::NotFound
    }
}

/// What a request asks for.
pub fn route(method: &str, path: &str) -> (r: Route)
    ensures
        r == route_spec(method@, path@),
{
    let get = str_eq(method, "GET");
    if str_eq(method, "POST") && str_eq(path, "/run") {
        Route::Run
    } else if get && str_eq(path, "/events") {
        Route::Events
    } else if get && str_eq(path, "/export") {
        Route::Export
    } else if get && str_eq(path, "/stats") {
        Route::Stats
    } else {
        Route::NotFound
    }
}

/// A JSON answer.
#[derive(Debug, PartialEq)]
pub struct Reply {
    pub status: u16,
    pub body: Json,
}

impl Reply {
    /// The text of the body.
    pub fn text(&self) -> (r: String)
        ensures
            r@ == json_text(self.body@),
    {
        json_to_text(&self.body)
    }
}

/// The body of a failed request.
pub open spec fn error_body(text: Seq<char>) -> JsonView {
    JsonView::Object(seq![("ok"@, JsonView::Bool(false)), ("error"@, JsonView::Str(text))])
}

pub open spec fn is_error(r: Reply, status: u16, text: Seq<char>) -> bool {
    r.status == status && r.body@ == error_body(text)
}

/// The answer to a failed request.
pub fn error_reply(status: u16, text: &str) -> (r: Reply)
    ensures
        is_error(r, status, text@),
{
    let mut m = object();
    put(&mut m, "ok", Json::Bool(false));
    put(&mut m, "error", Json::Str(text.to_owned()));
    assert(crate::json::members_view(m@) =~= seq![
        ("ok"@, JsonView::Bool(false)),
        ("error"@, JsonView::Str(text@)),
    ]);
    Reply { status, body: Json::Object(m) }
}

/// The answer to a request for something else.
pub fn not_found() -> (r: Reply)
    ensures
        is_error(r, 404, "not found"@),
{
    error_reply(404, "not found")
}

/// The answer to a request whose body could not be read.
pub fn body_failed(e: &str) -> (r: Reply)
    ensures
        is_error(r, 400, "body read failed: "@ + e@),
{
    error_reply(400, concat("body read failed: ", e).as_str())
}

/// What becomes of a submitted transaction before it reaches the engine: it is given an
/// identifier and its locations are wrapped, or it is refused.
pub open spec fn prepared(body: Seq<u8>, id: Seq<char>) -> Result<Seq<char>, Seq<char>> {
    if !valid_utf8(body) {
        Err("body must be UTF-8 s-expression text"@)
    } else {
        match rewritten(decode_utf8(body), id) {
            Ok(source) => Ok(source),
            Err(e) => Err("parse error: "@ + e),
        }
    }
}

/// The text of a submitted transaction. Nothing is counted for a body that is no text.
pub fn body_text(body: &[u8]) -> (r: Result<String, Reply>)
    ensures
        match r {
            Ok(src) => valid_utf8(body@) && src@ == decode_utf8(body@),
            Err(reply) => !valid_utf8(body@) && is_error(
                reply,
                400,
                "body must be UTF-8 s-expression text"@,
            ),
        },
{
    match string_from_utf8(body) {
        Ok(s) => Ok(s),
        Err(_) => Err(error_reply(400, "body must be UTF-8 s-expression text")),
    }
}

/// Prepares a submitted transaction under an identifier.
pub fn prepare_as(body: &[u8], id: &TxId) -> (r: Result<String, Reply>)
    ensures
        match r {
            Ok(source) => prepared(body@, id@) == Ok::<Seq<char>, Seq<char>>(source@),
            Err(reply) => prepared(body@, id@) matches Err(text) && is_error(reply, 400, text),
        },
{
    let src = match body_text(body) {
        Ok(s) => s,
        Err(reply) => return Err(reply),
    };
    match rewrite(src.as_str(), id.as_str()) {
        Ok(source) => Ok(source),
        Err(e) => Err(error_reply(400, concat("parse error: ", e.as_str()).as_str())),
    }
}

/// Prepares a submitted transaction under a fresh identifier with a count.
pub fn run_transaction(body: &[u8], count: u64) -> (r: Result<(TxId, String), Reply>)
    ensures
        match r {
            Ok((id, source)) => (exists|n: u64| id@ == #[trigger] txid_text(count, n)) && prepared(
                body@,
                id@,
            ) == Ok::<Seq<char>, Seq<char>>(source@),
            Err(reply) => exists|n: u64|
                prepared(body@, #[trigger] txid_text(count, n)) matches Err(text) && is_error(
                    reply,
                    400,
                    text,
                ),
        },
{
    let id = gen_txid(count);
    match prepare_as(body, &id) {
        Ok(source) => Ok((id, source)),
        Err(reply) => {
            proof {
                let n = choose|n: u64| id@ == #[trigger] txid_text(count, n);
                assert(prepared(body@, txid_text(count, n)) matches Err(text) && is_error(
                    reply,
                    400,
                    text,
                ));
            }
            Err(reply)
        },
    }
}

/// The marker of errors that are not the client's.
pub open spec fn unavailable(text: Seq<char>) -> bool {
    starts_with(encode_utf8(text), encode_utf8("unavailable:"@))
}

/// Whether an error is marked as not being the client's.
pub fn is_unavailable(text: &str) -> (r: bool)
    ensures
        r == unavailable(text@),
{
    has_prefix(text.as_bytes(), "unavailable:".as_bytes())
}

pub open spec fn ok_body(tx: Seq<char>, count: usize, version: u64) -> JsonView {
    JsonView::Object(
        seq![
            ("ok"@, JsonView::Bool(true)),
            ("tx"@, JsonView::Str(tx)),
            ("count"@, JsonView::Int(count as int)),
            ("version"@, JsonView::Int(version as int)),
        ],
    )
}

/// The status of the answer to a submitted transaction.
pub open spec fn run_status(answer: Option<Result<TxOk, String>>) -> u16 {
    match answer {
        Some(Ok(_)) => 200,
        Some(Err(e)) => if unavailable(e@) {
            503
        } else {
            422
        },
        None => 500,
    }
}

/// The body of the answer to a submitted transaction.
pub open spec fn run_body(answer: Option<Result<TxOk, String>>) -> JsonView {
    match answer {
        Some(Ok(ok)) => ok_body(ok.tx@, ok.count, ok.version),
        Some(Err(e)) => error_body(e@),
        None => error_body("engine dropped the reply"@),
    }
}

/// The answer to a submitted transaction: what the engine said, or `None` where it dropped the
/// reply. An error that is marked unavailable is not the client's.
pub fn run_reply(answer: &Option<Result<TxOk, String>>) -> (r: Reply)
    ensures
        r.status == run_status(*answer),
        r.body@ == run_body(*answer),
{
    match answer {
        Some(Ok(ok)) => {
            let mut m = object();
            put(&mut m, "ok", Json::Bool(true));
            put(&mut m, "tx", Json::Str(ok.tx.to_text()));
            put(&mut m, "count", Json::Int(ok.count as i128));
            put(&mut m, "version", Json::Int(ok.version as i128));
            assert(ok_body(ok.tx@, ok.count, ok.version) matches JsonView::Object(w)
                && crate::json::members_view(m@) =~= w);
            Reply { status: 200, body: Json::Object(m) }
        },
        Some(Err(e)) => if is_unavailable(e.as_str()) {
            error_reply(503, e.as_str())
        } else {
            error_reply(422, e.as_str())
        },
        None => error_reply(500, "engine dropped the reply"),
    }
}

/// The answer when the engine takes no more transactions.
pub fn shut_down() -> (r: Reply)
    ensures
        is_error(r, 503, "engine is shut down"@),
{
    error_reply(503, "engine is shut down")
}

/// The status of the answer to a failed export.
pub open spec fn export_status(e: Seq<char>) -> u16 {
    if unavailable(e) {
        503
    } else {
        400
    }
}

/// The answer to a failed export.
pub fn export_failed(e: &str) -> (r: Reply)
    ensures
        is_error(r, export_status(e@), e@),
{
    if is_unavailable(e) {
        error_reply(503, e)
    } else {
        error_reply(400, e)
    }
}

pub open spec fn stats_body(version: u64, in_flight: usize, history_len: usize) -> JsonView {
    JsonView::Object(
        seq![
            ("version"@, JsonView::Int(version as int)),
            ("in_flight"@, JsonView::Int(in_flight as int)),
            ("history_len"@, JsonView::Int(history_len as int)),
        ],
    )
}

/// The engine's gauges: the published version, the number of running transactions, and the number
/// of committed effects that are kept for them.
pub fn stats(version: u64, in_flight: usize, history_len: usize) -> (r: Json)
    ensures
        r@ == stats_body(version, in_flight, history_len),
{
    let mut m = object();
    put(&mut m, "version", Json::Int(version as i128));
    put(&mut m, "in_flight", Json::Int(in_flight as i128));
    put(&mut m, "history_len", Json::Int(history_len as i128));
    assert(stats_body(version, in_flight, history_len) matches JsonView::Object(w)
        && crate::json::members_view(m@) =~= w);
    Json::Object(m)
}

/// The value of a hexadecimal digit.
pub open spec fn hex_digit(b: u8) -> Option<int> {
    if 48 <= b <= 57 {
        Some(b - 48)
    } else if 97 <= b <= 102 {
        Some(b - 97 + 10)
    } else if 65 <= b <= 70 {
        Some(b - 65 + 10)
    } else {
        None
    }
}

/// The byte that two characters write in base sixteen; a `+` may stand for the first.
pub open spec fn hex_byte(a: u8, b: u8) -> Option<u8> {
    match hex_digit(b) {
        None => None,
        Some(lo) => if a == 43 {
            Some(lo as u8)
        } else {
            match hex_digit(a) {
                Some(hi) => Some((hi * 16 + lo) as u8),
                None => None,
            }
        },
    }
}

/// The bytes that a percent-encoded text writes, from the `i`-th byte on.
pub open spec fn unescaped(b: Seq<u8>, i: int) -> Option<Seq<u8>>
    decreases b.len() - i,
{
    if i < 0 || i >= b.len() {
        Some(seq![])
    } else if b[i] == 37 {
        if i + 2 >= b.len() {
            None
        } else {
            match hex_byte(b[i + 1], b[i + 2]) {
                None => None,
                Some(x) => match unescaped(b, i + 3) {
                    None => None,
                    Some(rest) => Some(seq![x] + rest),
                },
            }
        }
    } else {
        let x: u8 = if b[i] == 43 {
            32
        } else {
            b[i]
        };
        match unescaped(b, i + 1) {
            None => None,
            Some(rest) => Some(seq![x] + rest),
        }
    }
}

/// The text that a percent-encoded byte string writes.
pub open spec fn decoded_part(b: Seq<u8>) -> Option<Seq<char>> {
    match unescaped(b, 0) {
        None => None,
        Some(raw) => if valid_utf8(raw) {
            Some(decode_utf8(raw))
        } else {
            None
        },
    }
}

fn hex_value(b: u8) -> (r: Option<u8>)
    ensures
        match r {
            Some(v) => hex_digit(b) == Some(v as int) && v < 16,
            None => hex_digit(b) is None,
        },
{
    if 48 <= b && b <= 57 {
        Some(b - 48)
    } else if 97 <= b && b <= 102 {
        Some(b - 97 + 10)
    } else if 65 <= b && b <= 70 {
        Some(b - 65 + 10)
    } else {
        None
    }
}

fn decode_hex(a: u8, b: u8) -> (r: Option<u8>)
    ensures
        r == hex_byte(a, b),
{
    let lo = match hex_value(b) {
        Some(lo) => lo,
        None => return None,
    };
    if a == 43 {
        return Some(lo);
    }
    match hex_value(a) {
        Some(hi) => Some(hi * 16 + lo),
        None => None,
    }
}

/// Decodes a percent-encoded text; `None` where an escape is cut off or not hexadecimal, or the
/// result is not UTF-8.
pub fn percent_decode(b: &[u8]) -> (r: Option<String>)
    ensures
        match r {
            Some(s) => decoded_part(b@) == Some(s@),
            None => decoded_part(b@) is None,
        },
{
    let mut out: Vec<u8> = Vec::new();
    let mut i: usize = 0;
    proof {
        if let Some(rest) = unescaped(b@, 0) {
            assert(out@ + rest =~= rest);
        }
    }
    while i < b.len()
        invariant
            0 <= i <= b@.len(),
            unescaped(b@, 0) == (match unescaped(b@, i as int) {
                Some(rest) => Some(out@ + rest),
                None => None,
            }),
        decreases b@.len() - i,
    {
        let ghost before = out@;
        let mut step: usize = 1;
        if b[i] == 37 {
            if b.len() - i < 3 {
                return None;
            }
            match decode_hex(b[i + 1], b[i + 2]) {
                Some(x) => out.push(x),
                None => return None,
            }
            step = 3;
        } else if b[i] == 43 {
            out.push(32);
        } else {
            out.push(b[i]);
        }
        proof {
            if let Some(rest) = unescaped(b@, i + step) {
                assert(before + (seq![out@.last()] + rest) =~= out@ + rest);
            }
        }
        i = i + step;
    }
    assert(out@ + Seq::<u8>::empty() =~= out@);
    match string_from_utf8(out.as_slice()) {
        Ok(s) => Some(s),
        Err(_) => None,
    }
}

/// The first position from `i` on that holds a byte; the length where there is none.
pub open spec fn find_byte(b: Seq<u8>, x: u8, i: int) -> int
    decreases b.len() - i,
{
    if i < 0 || i >= b.len() {
        b.len() as int
    } else if b[i] == x {
        i
    } else {
        find_byte(b, x, i + 1)
    }
}

/// The name and value of one part of a query string; `None` for an empty part and for one that
/// cannot be decoded. Without a `=` the value is empty.
pub open spec fn query_pair(part: Seq<u8>) -> Option<(Seq<char>, Seq<char>)> {
    if part.len() == 0 {
        None
    } else {
        let eq = find_byte(part, 61, 0);
        let value = if eq < part.len() {
            part.skip(eq + 1)
        } else {
            seq![]
        };
        match decoded_part(part.take(eq)) {
            None => None,
            Some(k) => match decoded_part(value) {
                None => None,
                Some(v) => Some((k, v)),
            },
        }
    }
}

/// The table that a query string writes from a position on, on top of what is there: a later
/// value of a name replaces an earlier one.
pub open spec fn query_from(b: Seq<u8>, i: int, table: Map<Seq<char>, Seq<char>>) -> Map<
    Seq<char>,
    Seq<char>,
>
    decreases b.len() - i,
{
    if i < 0 || i > b.len() {
        table
    } else {
        let end = find_byte(b, 38, i);
        let next = match query_pair(b.subrange(i, end)) {
            Some((k, v)) => table.insert(k, v),
            None => table,
        };
        if end < i || end >= b.len() {
            next
        } else {
            query_from(b, end + 1, next)
        }
    }
}

proof fn lemma_find_byte(b: Seq<u8>, x: u8, i: int)
    requires
        0 <= i <= b.len(),
    ensures
        i <= find_byte(b, x, i) <= b.len(),
    decreases b.len() - i,
{
    if i < b.len() && b[i] != x {
        lemma_find_byte(b, x, i + 1);
    }
}

fn seek_byte(b: &[u8], x: u8, i: usize) -> (r: usize)
    requires
        i <= b@.len(),
    ensures
        r == find_byte(b@, x, i as int),
        i <= r <= b@.len(),
{
    let mut k: usize = i;
    while k < b.len() && b[k] != x
        invariant
            i <= k <= b@.len(),
            find_byte(b@, x, i as int) == find_byte(b@, x, k as int),
        decreases b@.len() - k,
    {
        k = k + 1;
    }
    k
}

fn parse_pair(part: &[u8]) -> (r: Option<(String, String)>)
    ensures
        match r {
            Some((k, v)) => query_pair(part@) == Some((k@, v@)),
            None => query_pair(part@) is None,
        },
{
    if part.len() == 0 {
        return None;
    }
    let eq = seek_byte(part, 61, 0);
    let name = vstd::slice::slice_subrange(part, 0, eq);
    let from: usize = if eq < part.len() {
        eq + 1
    } else {
        eq
    };
    let value = vstd::slice::slice_subrange(part, from, part.len());
    proof {
        assert(name@ =~= part@.take(eq as int));
        if eq < part@.len() {
            assert(value@ =~= part@.skip(eq + 1));
        } else {
            assert(value@ =~= seq![]);
        }
    }
    match percent_decode(name) {
        None => None,
        Some(k) => match percent_decode(value) {
            None => None,
            Some(v) => Some((k, v)),
        },
    }
}

pub open spec fn texts_of(m: Map<Seq<char>, String>) -> Map<Seq<char>, Seq<char>> {
    m.map_values(|s: String| s@)
}

/// The names and values of a query string.
pub fn parse_query(q: &str) -> (r: Table<String>)
    ensures
        texts_of(r@) == query_from(encode_utf8(q@), 0, Map::empty()),
{
    let b = q.as_bytes();
    let mut table: Table<String> = Table::new();
    let mut i: usize = 0;
    assert(texts_of(table@) =~= Map::empty());
    loop
        invariant
            0 <= i <= b@.len(),
            b@ == encode_utf8(q@),
            query_from(b@, 0, Map::empty()) == query_from(b@, i as int, texts_of(table@)),
        decreases b@.len() - i,
    {
        proof {
            lemma_find_byte(b@, 38, i as int);
        }
        let end = seek_byte(b, 38, i);
        let ghost before = table@;
        if let Some((k, v)) = parse_pair(vstd::slice::slice_subrange(b, i, end)) {
            let ghost key = k@;
            let _ = table.insert(k, v);
            assert(texts_of(table@) =~= texts_of(before).insert(key, v@));
        }
        if end >= b.len() {
            return table;
        }
        i = end + 1;
    }
}

/// Whether a query asks for deltas.
pub open spec fn deltas_asked(query: Map<Seq<char>, Seq<char>>) -> bool {
    query.contains_key("deltas"@) && (query["deltas"@] == "true"@ || query["deltas"@] == "1"@)
}

/// Whether the client wants deltas.
pub fn wants_deltas(query: &Table<String>) -> (r: bool)
    ensures
        r == deltas_asked(texts_of(query@)),
{
    match query.get("deltas") {
        Some(v) => str_eq(v.as_str(), "true") || str_eq(v.as_str(), "1"),
        None => false,
    }
}

/// Whether the `i`-th group of three bytes is the escape of a byte.
pub open spec fn escapes(digits: Seq<u8>, i: int, x: u8) -> bool {
    digits[3 * i] == 37 && hex_byte(digits[3 * i + 1], digits[3 * i + 2]) == Some(x)
}

/// Escaping a text by writing every byte as `%XX` and decoding it gives the text back.
pub proof fn escaped_text_decodes(s: Seq<char>, digits: Seq<u8>)
    requires
        digits.len() == 3 * encode_utf8(s).len(),
        forall|i: int|
            0 <= i < encode_utf8(s).len() ==> #[trigger] escapes(digits, i, encode_utf8(s)[i]),
    ensures
        decoded_part(digits) == Some(s),
{
    let raw = encode_utf8(s);
    lemma_unescaped(raw, digits, 0);
    assert(raw.skip(0) =~= raw);
    vstd::utf8::encode_utf8_valid_utf8(s);
    vstd::utf8::encode_utf8_decode_utf8(s);
}

proof fn lemma_unescaped(raw: Seq<u8>, digits: Seq<u8>, i: int)
    requires
        0 <= i <= raw.len(),
        digits.len() == 3 * raw.len(),
        forall|k: int| 0 <= k < raw.len() ==> #[trigger] escapes(digits, k, raw[k]),
    ensures
        unescaped(digits, 3 * i) == Some(raw.skip(i)),
    decreases raw.len() - i,
{
    if i < raw.len() {
        assert(escapes(digits, i, raw[i]));
        lemma_unescaped(raw, digits, i + 1);
        assert(3 * i + 3 == 3 * (i + 1));
        assert(seq![raw[i]] + raw.skip(i + 1) =~= raw.skip(i));
    } else {
        assert(raw.skip(i) =~= seq![]);
    }
}

} // verus!
