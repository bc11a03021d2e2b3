//! Transactions: their identifiers, their errors, and what is reported of them.
use vstd::prelude::*;
use vstd::utf8::encode_utf8;

use crate::json::{object, put, Json, JsonView};
use crate::text::{concat, dec_text, is_digit, u64_text};

verus! {

/// Lower-case letters and digits.
pub open spec fn is_suffix_byte(b: u8) -> bool {
    97 <= b <= 122 || is_digit(b)
}

/// The position of the first `_` from a position on.
pub open spec fn underscore_from(b: Seq<u8>, i: int) -> Option<int>
    decreases b.len() - i,
{
    if i < 0 || i >= b.len() {
        None
    } else if b[i] == 95 {
        Some(i)
    } else {
        underscore_from(b, i + 1)
    }
}

pub open spec fn all_digits(b: Seq<u8>) -> bool {
    b.len() > 0 && forall|i: int| 0 <= i < b.len() ==> is_digit(#[trigger] b[i])
}

pub open spec fn is_suffix(b: Seq<u8>) -> bool {
    b.len() == 8 && forall|i: int| 0 <= i < b.len() ==> is_suffix_byte(#[trigger] b[i])
}

/// What is wrong with the bytes of an identifier, apart from their number.
pub enum TxIdFault {
    Prefix,
    Separator,
    Count,
    Suffix,
}

/// The first fault of an identifier: it has to be `tx`, digits, `_`, and eight lower-case letters
/// or digits.
pub open spec fn txid_fault(b: Seq<u8>) -> Option<TxIdFault> {
    if b.len() < 2 || b[0] != 116 || b[1] != 120 {
        Some(TxIdFault::Prefix)
    } else {
        match underscore_from(b, 2) {
            None => Some(TxIdFault::Separator),
            Some(u) => if !all_digits(b.subrange(2, u)) {
                Some(TxIdFault::Count)
            } else if !is_suffix(b.skip(u + 1)) {
                Some(TxIdFault::Suffix)
            } else {
                None
            },
        }
    }
}

/// Whether a text has the form of a transaction identifier.
pub open spec fn txid_form(s: Seq<char>) -> bool {
    txid_fault(encode_utf8(s)) is None
}

/// Whether a text is a transaction identifier: it has the form and fits in a symbol.
pub open spec fn valid_txid(s: Seq<char>) -> bool {
    txid_form(s) && encode_utf8(s).len() <= 63
}

/// Why a text is no transaction identifier.
pub open spec fn txid_error(s: Seq<char>) -> Seq<char> {
    let b = encode_utf8(s);
    if b.len() > 63 {
        "txid too long: "@ + dec_text(b.len()) + " bytes (max 63)"@
    } else {
        match txid_fault(b) {
            Some(TxIdFault::Prefix) => "txid must start with 'tx'"@,
            Some(TxIdFault::Separator) => "txid missing '_' separator"@,
            Some(TxIdFault::Count) => "txid count part must be non-empty digits"@,
            _ => "txid suffix must be exactly8 lowercase alphanumeric characters"@,
        }
    }
}

/// Finds the first fault of an identifier.
pub fn find_txid_fault(b: &[u8]) -> (r: Option<TxIdFault>)
    ensures
        r == txid_fault(b@),
{
    if b.len() < 2 || b[0] != 116 || b[1] != 120 {
        return Some(TxIdFault::Prefix);
    }
    let mut u: usize = 2;
    while u < b.len() && b[u] != 95
        invariant
            2 <= u <= b@.len(),
            underscore_from(b@, 2) == underscore_from(b@, u as int),
        decreases b@.len() - u,
    {
        u = u + 1;
    }
    if u >= b.len() {
        return Some(TxIdFault::Separator);
    }
    let ghost count = b@.subrange(2, u as int);
    if u == 2 {
        return Some(TxIdFault::Count);
    }
    let mut i: usize = 2;
    while i < u
        invariant
            2 <= i <= u < b@.len(),
            count == b@.subrange(2, u as int),
            underscore_from(b@, 2) == Some(u as int),
            b@[0] == 116,
            b@[1] == 120,
            forall|k: int| 0 <= k < i - 2 ==> is_digit(#[trigger] count[k]),
        decreases u - i,
    {
        assert(count[i - 2] == b@[i as int]);
        if !(48 <= b[i] && b[i] <= 57) {
            assert(!is_digit(count[i - 2]));
            return Some(TxIdFault::Count);
        }
        i = i + 1;
    }
    let ghost suffix = b@.skip(u + 1);
    if b.len() - u != 9 {
        return Some(TxIdFault::Suffix);
    }
    let mut j: usize = u + 1;
    while j < b.len()
        invariant
            u + 1 <= j <= b@.len(),
            b@.len() == u + 9,
            suffix == b@.skip(u + 1),
            all_digits(b@.subrange(2, u as int)),
            underscore_from(b@, 2) == Some(u as int),
            b@[0] == 116,
            b@[1] == 120,
            forall|k: int| 0 <= k < j - (u + 1) ==> is_suffix_byte(#[trigger] suffix[k]),
        decreases b@.len() - j,
    {
        assert(suffix[j - (u + 1)] == b@[j as int]);
        if !((97 <= b[j] && b[j] <= 122) || (48 <= b[j] && b[j] <= 57)) {
            assert(!is_suffix_byte(suffix[j - (u + 1)]));
            return Some(TxIdFault::Suffix);
        }
        j = j + 1;
    }
    None
}

/// A validated transaction identifier.
#[derive(Debug, PartialEq, Eq, Hash)]
pub struct TxId(String);

impl TxId {
    #[verifier::type_invariant]
    pub closed spec fn well_formed(self) -> bool {
        valid_txid(self.0@)
    }

    pub closed spec fn view(&self) -> Seq<char> {
        self.0@
    }

    /// Checks an identifier.
    pub fn new(id: String) -> (r: Result<TxId, String>)
        ensures
            match r {
                Ok(t) => valid_txid(id@) && t@ == id@,
                Err(e) => !valid_txid(id@) && e@ == txid_error(id@),
            },
    {
        let b = id.as_str().as_bytes();
        if b.len() > 63 {
            let mut out = concat("txid too long: ", u64_text(b.len() as u64).as_str());
            out.append(" bytes (max 63)");
            return Err(out);
        }
        match find_txid_fault(b) {
            None => Ok(TxId(id)),
            Some(TxIdFault::Prefix) => Err("txid must start with 'tx'".to_owned()),
            Some(TxIdFault::Separator) => Err("txid missing '_' separator".to_owned()),
            Some(TxIdFault::Count) => Err("txid count part must be non-empty digits".to_owned()),
            Some(TxIdFault::Suffix) => Err(
                "txid suffix must be exactly8 lowercase alphanumeric characters".to_owned(),
            ),
        }
    }

    /// The identifier as text.
    pub fn as_str(&self) -> (r: &str)
        ensures
            r@ == self@,
            valid_txid(self@),
    {
        proof {
            use_type_invariant(self);
        }
        self.0.as_str()
    }

    /// The identifier as an owned text.
    pub fn to_text(&self) -> (r: String)
        ensures
            r@ == self@,
            valid_txid(self@),
    {
        proof {
            use_type_invariant(self);
        }
        self.0.clone()
    }
}

impl Clone for TxId {
    fn clone(&self) -> (r: Self)
        ensures
            r@ == self@,
    {
        proof {
            use_type_invariant(self);
        }
        TxId(self.0.clone())
    }
}

impl std::ops::Deref for TxId {
    type Target = str;

    fn deref(&self) -> (r: &str)
        ensures
            r@ == self@,
    {
        self.0.as_str()
    }
}

/// An engine error, with what may be shown of it kept apart from its detail.
#[derive(Debug)]
pub enum EngineError {
    /// The log cannot be written; the server cannot persist anything for now.
    WalPoisoned,
    /// The kernel loader rejected the transaction.
    LoadFailed { detail: String },
}

impl EngineError {
    pub open spec fn status(&self) -> u16 {
        match self {
            EngineError::WalPoisoned => 503,
            EngineError::LoadFailed { .. } => 422,
        }
    }

    pub open spec fn safe_text(&self) -> Seq<char> {
        match self {
            EngineError::WalPoisoned => "write error on disk; writes refused (reads still serve)"@,
            EngineError::LoadFailed { .. } => "transaction rejected by the kernel loader"@,
        }
    }

    pub open spec fn log_text(&self, txid: Seq<char>) -> Seq<char> {
        match self {
            EngineError::WalPoisoned => "tx "@ + txid + ": WAL poisoned, writes refused"@,
            EngineError::LoadFailed { detail } => "tx "@ + txid + ": load failed: "@ + detail@,
        }
    }

    /// The HTTP status of the error.
    pub fn status_code(&self) -> (r: u16)
        ensures
            r == self.status(),
    {
        match self {
            EngineError::WalPoisoned => 503,
            EngineError::LoadFailed { .. } => 422,
        }
    }

    /// What a client is shown; it holds no detail.
    pub fn safe_message(&self) -> (r: String)
        ensures
            r@ == self.safe_text(),
    {
        match self {
            EngineError::WalPoisoned => {
                "write error on disk; writes refused (reads still serve)".to_owned()
            },
            EngineError::LoadFailed { .. } => {
                "transaction rejected by the kernel loader".to_owned()
            },
        }
    }

    /// The line that the server logs, with the full detail.
    pub fn log_internal(&self, txid: &str) -> (r: String)
        ensures
            r@ == self.log_text(txid@),
    {
        let mut out = concat("tx ", txid);
        match self {
            EngineError::WalPoisoned => out.append(": WAL poisoned, writes refused"),
            EngineError::LoadFailed { detail } => {
                out.append(": load failed: ");
                out.append(detail.as_str());
            },
        }
        out
    }
}

/// A committed transaction's answer.
#[derive(Debug, PartialEq)]
pub struct TxOk {
    pub tx: TxId,
    pub count: usize,
    pub version: u64,
}

/// What is reported to clients. Every event carries the version, so that any client can order
/// what it observes.
#[derive(Debug, PartialEq)]
pub enum Event {
    /// A transaction's expressions were applied.
    Tx { tx: TxId, count: usize, version: u64 },
    /// One step ran for a transaction.
    Step { tx: TxId, exec_text: String, touched: usize, new: bool, us: u64, version: u64 },
    /// A transaction committed: nothing of it can step any more.
    Quiescent { tx: TxId, version: u64 },
    /// Nothing is pending anywhere.
    Idle { version: u64 },
    /// What two consecutively observed snapshots differ in.
    Delta { version: u64, added: Vec<String>, removed: Vec<String> },
    /// A transaction was rolled back.
    Abort { tx: TxId, reason: String, version: u64 },
    /// A transaction exhausted its step budget and was committed as far as it got.
    Budget { tx: TxId, steps: u64, version: u64 },
}

pub open spec fn texts_view(v: Seq<String>) -> Seq<Seq<char>> {
    v.map_values(|s: String| s@)
}

pub open spec fn text_array(v: Seq<Seq<char>>) -> JsonView {
    JsonView::Array(v.map_values(|s: Seq<char>| JsonView::Str(s)))
}

pub fn text_array_json(v: &Vec<String>) -> (r: Json)
    ensures
        r@ == text_array(texts_view(v@)),
{
    let mut out: Vec<Json> = Vec::new();
    let mut i: usize = 0;
    while i < v.len()
        invariant
            0 <= i <= v@.len(),
            out@.len() == i,
            forall|k: int| 0 <= k < i ==> (#[trigger] out@[k])@ == JsonView::Str(v@[k]@),
        decreases v@.len() - i,
    {
        out.push(Json::Str(v[i].clone()));
        i = i + 1;
    }
    assert(text_array(texts_view(v@)) matches JsonView::Array(w) && crate::json::items_view(out@)
        =~= w);
    Json::Array(out)
}

impl Event {
    pub open spec fn name_text(&self) -> Seq<char> {
        match self {
            Event::Tx { .. } => "tx"@,
            Event::Step { .. } => "step"@,
            Event::Quiescent { .. } => "quiescent"@,
            Event::Idle { .. } => "idle"@,
            Event::Delta { .. } => "delta"@,
            Event::Abort { .. } => "abort"@,
            Event::Budget { .. } => "budget"@,
        }
    }

    /// The name of the event.
    pub fn name(&self) -> (r: &'static str)
        ensures
            r@ == self.name_text(),
    {
        match self {
            Event::Tx { .. } => "tx",
            Event::Step { .. } => "step",
            Event::Quiescent { .. } => "quiescent",
            Event::Idle { .. } => "idle",
            Event::Delta { .. } => "delta",
            Event::Abort { .. } => "abort",
            Event::Budget { .. } => "budget",
        }
    }

    pub open spec fn data_json(&self) -> JsonView {
        match self {
            Event::Tx { tx, count, version } => JsonView::Object(
                seq![
                    ("tx"@, JsonView::Str(tx@)),
                    ("count"@, JsonView::Int(*count as int)),
                    ("version"@, JsonView::Int(*version as int)),
                ],
            ),
            Event::Step { tx, exec_text, touched, new, us, version } => JsonView::Object(
                seq![
                    ("tx"@, JsonView::Str(tx@)),
                    ("exec"@, JsonView::Str(exec_text@)),
                    ("touched"@, JsonView::Int(*touched as int)),
                    ("new"@, JsonView::Bool(*new)),
                    ("us"@, JsonView::Int(*us as int)),
                    ("version"@, JsonView::Int(*version as int)),
                ],
            ),
            Event::Quiescent { tx, version } => JsonView::Object(
                seq![
                    ("tx"@, JsonView::Str(tx@)),
                    ("version"@, JsonView::Int(*version as int)),
                ],
            ),
            Event::Idle { version } => JsonView::Object(
                seq![("version"@, JsonView::Int(*version as int))],
            ),
            Event::Delta { version, added, removed } => JsonView::Object(
                seq![
                    ("version"@, JsonView::Int(*version as int)),
                    ("added"@, text_array(texts_view(added@))),
                    ("removed"@, text_array(texts_view(removed@))),
                ],
            ),
            Event::Abort { tx, reason, version } => JsonView::Object(
                seq![
                    ("tx"@, JsonView::Str(tx@)),
                    ("reason"@, JsonView::Str(reason@)),
                    ("version"@, JsonView::Int(*version as int)),
                ],
            ),
            Event::Budget { tx, steps, version } => JsonView::Object(
                seq![
                    ("tx"@, JsonView::Str(tx@)),
                    ("steps"@, JsonView::Int(*steps as int)),
                    ("version"@, JsonView::Int(*version as int)),
                ],
            ),
        }
    }

    /// The data of the event.
    pub fn data(&self) -> (r: Json)
        ensures
            r@ == self.data_json(),
    {
        let ghost want = self.data_json();
        let mut m = object();
        match self {
            Event::Tx { tx, count, version } => {
                put(&mut m, "tx", Json::Str(tx.to_text()));
                put(&mut m, "count", Json::Int(*count as i128));
                put(&mut m, "version", Json::Int(*version as i128));
            },
            Event::Step { tx, exec_text, touched, new, us, version } => {
                put(&mut m, "tx", Json::Str(tx.to_text()));
                put(&mut m, "exec", Json::Str(exec_text.clone()));
                put(&mut m, "touched", Json::Int(*touched as i128));
                put(&mut m, "new", Json::Bool(*new));
                put(&mut m, "us", Json::Int(*us as i128));
                put(&mut m, "version", Json::Int(*version as i128));
            },
            Event::Quiescent { tx, version } => {
                put(&mut m, "tx", Json::Str(tx.to_text()));
                put(&mut m, "version", Json::Int(*version as i128));
            },
            Event::Idle { version } => {
                put(&mut m, "version", Json::Int(*version as i128));
            },
            Event::Delta { version, added, removed } => {
                put(&mut m, "version", Json::Int(*version as i128));
                put(&mut m, "added", text_array_json(added));
                put(&mut m, "removed", text_array_json(removed));
            },
            Event::Abort { tx, reason, version } => {
                put(&mut m, "tx", Json::Str(tx.to_text()));
                put(&mut m, "reason", Json::Str(reason.clone()));
                put(&mut m, "version", Json::Int(*version as i128));
            },
            Event::Budget { tx, steps, version } => {
                put(&mut m, "tx", Json::Str(tx.to_text()));
                put(&mut m, "steps", Json::Int(*steps as i128));
                put(&mut m, "version", Json::Int(*version as i128));
            },
        }
        assert(want matches JsonView::Object(w) && crate::json::members_view(m@) =~= w);
        Json::Object(m)
    }

    pub open spec fn id(&self) -> Option<Seq<char>> {
        match self {
            Event::Tx { tx, .. } => Some(tx@),
            Event::Step { tx, .. } => Some(tx@),
            Event::Quiescent { tx, .. } => Some(tx@),
            Event::Abort { tx, .. } => Some(tx@),
            Event::Budget { tx, .. } => Some(tx@),
            Event::Idle { .. } => None,
            Event::Delta { .. } => None,
        }
    }

    /// The transaction that the event belongs to; the others belong to none.
    pub fn tx_id(&self) -> (r: Option<&str>)
        ensures
            match r {
                Some(s) => self.id() == Some(s@),
                None => self.id() is None,
            },
    {
        match self {
            Event::Tx { tx, .. } => Some(tx.as_str()),
            Event::Step { tx, .. } => Some(tx.as_str()),
            Event::Quiescent { tx, .. } => Some(tx.as_str()),
            Event::Abort { tx, .. } => Some(tx.as_str()),
            Event::Budget { tx, .. } => Some(tx.as_str()),
            Event::Idle { .. } => None,
            Event::Delta { .. } => None,
        }
    }
}

/// What a client is shown of a failed load does not depend on the detail.
pub proof fn safe_message_hides_detail(a: String, b: String)
    ensures
        (EngineError::LoadFailed { detail: a }).safe_text() == (EngineError::LoadFailed {
            detail: b,
        }).safe_text(),
{
}

} // verus!
