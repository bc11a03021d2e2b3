//! Steps of the virtual machine as the engine reports them, and the parking of pending execs.
use vstd::prelude::*;

use crate::text::{chars_of, concat, lossy, readable_text, text_of_chars};
use crate::worker::{StepOutcome, StepView};
use crate::wrap::{unwrap_text, unwrapped_text};

verus! {

/// The pattern that finds pending execs.
pub const PENDING_PATTERN: &'static str = "[4] exec $ $ $";

/// The template that writes them out.
pub const PENDING_TEMPLATE: &'static str = "[4] exec _1 _2 _3";

/// The position of the first line end from `i` on; the length where there is none.
pub open spec fn line_end(s: Seq<char>, i: int) -> int
    decreases s.len() - i,
{
    if i < 0 || i >= s.len() {
        s.len() as int
    } else if s[i] == '\n' {
        i
    } else {
        line_end(s, i + 1)
    }
}

/// A line without the carriage return before the line end that closes it.
pub open spec fn trim_line(s: Seq<char>, start: int, end: int) -> Seq<char> {
    if start < end && s[end - 1] == '\r' {
        s.subrange(start, end - 1)
    } else {
        s.subrange(start, end)
    }
}

/// The lines of a text from a position on; a line end behind the last line starts no further one.
pub open spec fn lines_from(s: Seq<char>, i: int) -> Seq<Seq<char>>
    decreases s.len() - i,
{
    if i < 0 || i >= s.len() {
        seq![]
    } else {
        let end = line_end(s, i);
        if end < i || end >= s.len() {
            seq![s.skip(i)]
        } else {
            seq![trim_line(s, i, end)] + lines_from(s, end + 1)
        }
    }
}

pub proof fn lemma_line_end(s: Seq<char>, i: int)
    requires
        0 <= i <= s.len(),
    ensures
        i <= line_end(s, i) <= s.len(),
        line_end(s, i) < s.len() ==> s[line_end(s, i)] == '\n',
    decreases s.len() - i,
{
    if i < s.len() && s[i] != '\n' {
        lemma_line_end(s, i + 1);
    }
}

/// The lines of a text.
pub fn lines(text: &str) -> (r: Vec<String>)
    ensures
        r@.len() == lines_from(text@, 0).len(),
        forall|k: int| 0 <= k < r@.len() ==> (#[trigger] r@[k])@ == lines_from(text@, 0)[k],
{
    let cs = chars_of(text);
    let n: usize = cs.len();
    let ghost s = text@;
    let mut out: Vec<String> = Vec::new();
    let mut i: usize = 0;
    assert(out@.map_values(|x: String| x@) + lines_from(s, 0) =~= lines_from(s, 0));
    while i < n
        invariant
            cs@ == s,
            s == text@,
            n == s.len(),
            0 <= i <= n,
            out@.map_values(|x: String| x@) + lines_from(s, i as int) == lines_from(s, 0),
        decreases n - i,
    {
        proof {
            lemma_line_end(s, i as int);
        }
        let mut end: usize = i;
        while end < n && cs[end] != '\n'
            invariant
                cs@ == s,
                n == s.len(),
                i <= end <= n,
                line_end(s, i as int) == line_end(s, end as int),
            decreases n - end,
        {
            end = end + 1;
        }
        let ghost before = out@;
        if end >= n {
            out.push(text_of_chars(&cs, i, n));
            proof {
                assert(s.subrange(i as int, n as int) =~= s.skip(i as int));
                assert(out@.map_values(|x: String| x@) =~= before.map_values(|x: String| x@)
                    + lines_from(s, i as int));
                lemma_same_lines(out@, lines_from(s, 0));
            }
            return out;
        }
        let stop: usize = if i < end && cs[end - 1] == '\r' {
            end - 1
        } else {
            end
        };
        out.push(text_of_chars(&cs, i, stop));
        proof {
            let line = trim_line(s, i as int, end as int);
            let rest = lines_from(s, end + 1);
            assert(out@.map_values(|x: String| x@) =~= before.map_values(|x: String| x@).push(line));
            assert(before.map_values(|x: String| x@) + (seq![line] + rest) =~= out@.map_values(
                |x: String| x@,
            ) + rest);
        }
        i = end + 1;
    }
    assert(lines_from(s, i as int) =~= seq![]);
    assert(out@.map_values(|x: String| x@) + seq![] =~= out@.map_values(|x: String| x@));
    proof {
        lemma_same_lines(out@, lines_from(s, 0));
    }
    out
}

proof fn lemma_same_lines(out: Seq<String>, want: Seq<Seq<char>>)
    requires
        out.map_values(|x: String| x@) == want,
    ensures
        out.len() == want.len(),
        forall|k: int| 0 <= k < out.len() ==> (#[trigger] out[k])@ == want[k],
{
    assert forall|k: int| 0 <= k < out.len() implies (#[trigger] out[k])@ == want[k] by {
        assert(out.map_values(|x: String| x@)[k] == out[k]@);
    }
}

/// The lines that are not empty, each made inert, from the `k`-th on.
pub open spec fn paused_from(ls: Seq<Seq<char>>, k: int) -> Seq<char>
    decreases ls.len() - k,
{
    if k < 0 || k >= ls.len() {
        seq![]
    } else if ls[k].len() == 0 {
        paused_from(ls, k + 1)
    } else {
        "(paused "@ + ls[k] + ")\n"@ + paused_from(ls, k + 1)
    }
}

/// What replaces the pending execs, given the kernel's listing of them; `None` where there are
/// none.
pub fn pause_pending_execs(listing: &[u8]) -> (r: Option<(String, String)>)
    ensures
        match r {
            None => listing@.len() == 0,
            Some((execs, paused)) => listing@.len() > 0 && execs@ == readable_text(listing@)
                && paused@ == paused_from(lines_from(readable_text(listing@), 0), 0),
        },
{
    if listing.len() == 0 {
        return None;
    }
    let execs = lossy(listing);
    let ls = lines(execs.as_str());
    let ghost want = lines_from(execs@, 0);
    let mut paused = String::new();
    let mut k: usize = 0;
    assert(paused@ + paused_from(want, 0) =~= paused_from(want, 0));
    while k < ls.len()
        invariant
            0 <= k <= ls@.len(),
            ls@.len() == want.len(),
            forall|j: int| 0 <= j < ls@.len() ==> (#[trigger] ls@[j])@ == want[j],
            paused@ + paused_from(want, k as int) == paused_from(want, 0),
        decreases ls@.len() - k,
    {
        let ghost before = paused@;
        assert(ls@[k as int]@ == want[k as int]);
        if !ls[k].as_str().is_empty() {
            paused.append("(paused ");
            paused.append(ls[k].as_str());
            paused.append(")\n");
            proof {
                let rest = paused_from(want, k + 1);
                assert(before + ("(paused "@ + want[k as int] + ")\n"@ + rest) =~= paused@ + rest);
            }
        }
        k = k + 1;
    }
    assert(paused@ + paused_from(want, k as int) =~= paused@);
    Some((execs, paused))
}

/// The outcome of an attempt to step under a prefix: `None` where nothing could step. `listing` is
/// the text of the exec that ran, `error` what the interpreter said against it.
pub fn step_at(done: usize, listing: &str, error: Option<&str>) -> (r: Option<StepOutcome>)
    ensures
        match r {
            None => done == 0,
            Some(o) => done != 0 && o@ == match error {
                Some(e) => StepView::Failed("exec "@ + unwrapped_text(listing@).0 + ": "@ + e@),
                None => StepView::Stepped,
            },
        },
{
    if done == 0 {
        return None;
    }
    match error {
        Some(e) => {
            let (exec_text, _) = unwrap_text(listing);
            let mut out = concat("exec ", exec_text.as_str());
            out.append(": ");
            out.append(e);
            Some(StepOutcome::Failed(out))
        },
        None => Some(StepOutcome::Stepped),
    }
}

/// One step of a transaction: in its own namespace; only where nothing can step there, anywhere in
/// the space. `anywhere` is the outcome of that second attempt, which is looked at only then.
pub fn step_once(own: Option<StepOutcome>, anywhere: Option<StepOutcome>) -> (r: StepOutcome)
    ensures
        r == (match own {
            Some(o) => o,
            None => match anywhere {
                Some(o) => o,
                None => StepOutcome::Done,
            },
        }),
{
    match own {
        Some(o) => o,
        None => match anywhere {
            Some(o) => o,
            None => StepOutcome::Done,
        },
    }
}

/// A text without the line ends behind it.
pub open spec fn without_line_ends(s: Seq<char>) -> Seq<char>
    decreases s.len(),
{
    if s.len() > 0 && s.last() == '\n' {
        without_line_ends(s.drop_last())
    } else {
        s
    }
}

/// The text of one stored expression, given the kernel's listing of it.
pub fn exec_to_text(listing: &[u8]) -> (r: String)
    ensures
        r@ == without_line_ends(readable_text(listing@)),
{
    let s = lossy(listing);
    let cs = chars_of(s.as_str());
    let mut n: usize = cs.len();
    assert(cs@.take(n as int) =~= cs@);
    while n > 0 && cs[n - 1] == '\n'
        invariant
            0 <= n <= cs@.len(),
            without_line_ends(cs@.take(n as int)) == without_line_ends(cs@),
        decreases n,
    {
        assert(cs@.take(n as int).drop_last() =~= cs@.take(n - 1));
        n = n - 1;
    }
    proof {
        if n > 0 {
            assert(cs@.take(n as int).last() == cs@[n - 1]);
        }
        assert(cs@.subrange(0, n as int) =~= cs@.take(n as int));
    }
    text_of_chars(&cs, 0, n)
}

} // verus!
