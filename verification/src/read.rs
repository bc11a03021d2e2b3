//! Exports: which are asked for, and how their output is shown.
use vstd::prelude::*;
use vstd::utf8::encode_utf8;

use crate::steps::{lines, lines_from};
use crate::text::{lossy, quoted, quoted_text, readable_text};
use crate::wrap::{unwrap_text, unwrapped_text};

verus! {

/// What an export is told when every write slot of the symbol table is taken.
pub const NO_PERMIT: &'static str =
    "unavailable: every symbol-table write slot is held by a running transaction; retry, or run the server with fewer --workers";

/// The longest expression that is parsed, in bytes.
pub const MAX_EXPRESSION: usize = 2048;

/// What an export asks for.
#[derive(Clone, Copy, Debug, PartialEq, Eq, Structural)]
pub enum ExportMode {
    /// Everything.
    All,
    /// What matches a pattern, written by a template.
    Query,
}

/// What an export asks for: nothing given means everything; a pattern and a template have to be
/// given together.
pub fn export_mode(pattern: Option<&str>, template: Option<&str>) -> (r: Result<ExportMode, String>)
    ensures
        match r {
            Ok(ExportMode::All) => pattern is None && template is None,
            Ok(ExportMode::Query) => pattern is Some && template is Some,
            Err(e) => pattern is Some != template is Some && e@
                == "pattern and template must be provided together"@,
        },
{
    match (pattern, template) {
        (None, None) => Ok(ExportMode::All),
        (Some(_), Some(_)) => Ok(ExportMode::Query),
        _ => Err("pattern and template must be provided together".to_owned()),
    }
}

/// What came of parsing an expression's text outside.
pub enum ParseOutcome {
    /// No write slot was free.
    NoPermit,
    /// The text is no expression.
    Refused,
    Parsed(Vec<u8>),
}

/// Whether an expression is short enough to be parsed.
pub fn check_expression(text: &str) -> (r: Result<(), String>)
    ensures
        match r {
            Ok(()) => encode_utf8(text@).len() <= MAX_EXPRESSION,
            Err(e) => encode_utf8(text@).len() > MAX_EXPRESSION && e@
                == "expression too long (max 2048 bytes)"@,
        },
{
    if text.as_bytes().len() > MAX_EXPRESSION {
        return Err("expression too long (max 2048 bytes)".to_owned());
    }
    Ok(())
}

/// The expression that was parsed, or why there is none.
pub fn parse_expr_bytes(text: &str, outcome: ParseOutcome) -> (r: Result<Vec<u8>, String>)
    ensures
        if encode_utf8(text@).len() > MAX_EXPRESSION {
            r matches Err(e) && e@ == "expression too long (max 2048 bytes)"@
        } else {
            match outcome {
                ParseOutcome::Refused => r matches Err(e) && e@ == "failed to parse expression: "@
                    + quoted_text(text@),
                ParseOutcome::NoPermit => r matches Err(e) && e@ == NO_PERMIT@,
                ParseOutcome::Parsed(bytes) => r == Ok::<Vec<u8>, String>(bytes),
            }
        },
{
    match check_expression(text) {
        Ok(()) => {},
        Err(e) => return Err(e),
    }
    match outcome {
        ParseOutcome::Refused => Err(
            crate::text::concat("failed to parse expression: ", quoted(text).as_str()),
        ),
        ParseOutcome::NoPermit => Err(NO_PERMIT.to_owned()),
        ParseOutcome::Parsed(bytes) => Ok(bytes),
    }
}

/// The lines that are not empty, without wrappers, from the `k`-th on.
pub open spec fn shown_from(ls: Seq<Seq<char>>, k: int) -> Seq<char>
    decreases ls.len() - k,
{
    if k < 0 || k >= ls.len() {
        seq![]
    } else if ls[k].len() == 0 {
        shown_from(ls, k + 1)
    } else {
        unwrapped_text(ls[k]).0 + "\n"@ + shown_from(ls, k + 1)
    }
}

/// The output of an export, given the kernel's listing: a line per expression, without wrappers.
pub fn export(listing: &[u8]) -> (r: String)
    ensures
        r@ == shown_from(lines_from(readable_text(listing@), 0), 0),
{
    let text = lossy(listing);
    let ls = lines(text.as_str());
    let ghost want = lines_from(text@, 0);
    let mut out = String::new();
    let mut k: usize = 0;
    assert(out@ + shown_from(want, 0) =~= shown_from(want, 0));
    while k < ls.len()
        invariant
            0 <= k <= ls@.len(),
            ls@.len() == want.len(),
            forall|j: int| 0 <= j < ls@.len() ==> (#[trigger] ls@[j])@ == want[j],
            out@ + shown_from(want, k as int) == shown_from(want, 0),
        decreases ls@.len() - k,
    {
        let ghost before = out@;
        assert(ls@[k as int]@ == want[k as int]);
        if !ls[k].as_str().is_empty() {
            let (line, _) = unwrap_text(ls[k].as_str());
            out.append(line.as_str());
            out.append("\n");
            proof {
                let rest = shown_from(want, k + 1);
                assert(before + (line@ + "\n"@ + rest) =~= out@ + rest);
            }
        }
        k = k + 1;
    }
    assert(out@ + shown_from(want, k as int) =~= out@);
    out
}

/// The lines that are not empty, without wrappers, from the `k`-th on, as a list.
pub open spec fn shown_lines(ls: Seq<Seq<char>>, k: int) -> Seq<Seq<char>>
    decreases ls.len() - k,
{
    if k < 0 || k >= ls.len() {
        seq![]
    } else if ls[k].len() == 0 {
        shown_lines(ls, k + 1)
    } else {
        seq![unwrapped_text(ls[k]).0] + shown_lines(ls, k + 1)
    }
}

/// The expressions of a listing, without wrappers.
pub fn dump_lines(listing: &[u8]) -> (r: Vec<String>)
    ensures
        crate::transaction::texts_view(r@) == shown_lines(
            lines_from(readable_text(listing@), 0),
            0,
        ),
{
    let text = lossy(listing);
    let ls = lines(text.as_str());
    let ghost want = lines_from(text@, 0);
    let mut out: Vec<String> = Vec::new();
    let mut k: usize = 0;
    assert(crate::transaction::texts_view(out@) + shown_lines(want, 0) =~= shown_lines(want, 0));
    while k < ls.len()
        invariant
            0 <= k <= ls@.len(),
            ls@.len() == want.len(),
            forall|j: int| 0 <= j < ls@.len() ==> (#[trigger] ls@[j])@ == want[j],
            crate::transaction::texts_view(out@) + shown_lines(want, k as int) == shown_lines(
                want,
                0,
            ),
        decreases ls@.len() - k,
    {
        let ghost before = crate::transaction::texts_view(out@);
        assert(ls@[k as int]@ == want[k as int]);
        if !ls[k].as_str().is_empty() {
            let (line, _) = unwrap_text(ls[k].as_str());
            out.push(line);
            proof {
                let rest = shown_lines(want, k + 1);
                assert(crate::transaction::texts_view(out@) =~= before.push(line@));
                assert(before + (seq![line@] + rest) =~= crate::transaction::texts_view(out@)
                    + rest);
            }
        }
        k = k + 1;
    }
    assert(crate::transaction::texts_view(out@) + shown_lines(want, k as int)
        =~= crate::transaction::texts_view(out@));
    out
}

} // verus!
