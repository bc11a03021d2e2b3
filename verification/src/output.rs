//! The layout of the terminal output.
use vstd::prelude::*;

use crate::steps::{lines, lines_from};
use crate::text::{chars_of, concat, dec_text, u128_text, u64_text};
use crate::transaction::texts_view;

verus! {

/// A character some times over.
pub open spec fn repeat(c: char, n: int) -> Seq<char> {
    Seq::new(
        if n < 0 {
            0
        } else {
            n as nat
        },
        |i: int| c,
    )
}

/// The width of the widest line.
pub open spec fn widest(ls: Seq<Seq<char>>) -> nat
    decreases ls.len(),
{
    if ls.len() == 0 {
        0
    } else {
        larger(widest(ls.drop_last()), ls.last().len())
    }
}

pub open spec fn larger(a: nat, b: nat) -> nat {
    if a >= b {
        a
    } else {
        b
    }
}

/// A text padded with blanks to a width.
pub open spec fn padded(s: Seq<char>, width: int) -> Seq<char> {
    s + repeat(' ', width - s.len())
}

/// A line between two vertical bars.
pub open spec fn barred(bar: char, line: Seq<char>, width: int) -> Seq<char> {
    seq![bar, ' '] + padded(line, width) + seq![' ', bar]
}

/// Rows, each with a line end.
pub open spec fn rows_text(rows: Seq<Seq<char>>) -> Seq<char>
    decreases rows.len(),
{
    if rows.len() == 0 {
        seq![]
    } else {
        rows_text(rows.drop_last()) + rows.last() + seq!['\n']
    }
}

/// The content width of a box: the widest of its lines and its title, and two more.
pub open spec fn box_width(title: Seq<char>, ls: Seq<Seq<char>>) -> nat {
    larger(widest(ls), title.len()) + 2
}

/// The rows of a box.
pub open spec fn box_rows(title: Seq<char>, ls: Seq<Seq<char>>) -> Seq<Seq<char>> {
    let w = box_width(title, ls) as int;
    seq![seq!['╭', '─', ' '] + title + seq![' '] + repeat('─', w - title.len() - 1) + seq!['╮']]
        + ls.map_values(|l: Seq<char>| barred('│', l, w)) + seq![
        seq!['╰'] + repeat('─', w + 2) + seq!['╯'],
    ]
}

fn push_repeat(out: &mut String, c: char, n: usize)
    ensures
        final(out)@ == old(out)@ + repeat(c, n as int),
{
    let ghost start = out@;
    let mut i: usize = 0;
    assert(start + repeat(c, 0) =~= start);
    while i < n
        invariant
            i <= n,
            out@ == start + repeat(c, i as int),
        decreases n - i,
    {
        out.push(c);
        i = i + 1;
        assert(start + repeat(c, i as int) =~= (start + repeat(c, i - 1)).push(c));
    }
}

/// The number of characters of a text.
fn width_of(s: &str) -> (r: usize)
    ensures
        r == s@.len(),
{
    chars_of(s).len()
}

fn push_barred(out: &mut String, bar: char, line: &str, width: usize)
    requires
        line@.len() <= width,
    ensures
        final(out)@ == old(out)@ + barred(bar, line@, width as int) + seq!['\n'],
{
    let ghost start = out@;
    out.push(bar);
    out.push(' ');
    out.append(line);
    push_repeat(out, ' ', width - width_of(line));
    out.push(' ');
    out.push(bar);
    out.push('\n');
    assert(out@ =~= start + barred(bar, line@, width as int) + seq!['\n']);
}

/// The widest line, and at least `least`.
fn widest_of(ls: &Vec<String>, least: usize) -> (r: usize)
    ensures
        r == larger(widest(texts_view(ls@)), least as nat),
{
    let mut w: usize = least;
    let mut i: usize = 0;
    assert(texts_view(ls@).take(0) =~= seq![]);
    while i < ls.len()
        invariant
            i <= ls@.len(),
            w == larger(widest(texts_view(ls@).take(i as int)), least as nat),
        decreases ls@.len() - i,
    {
        let n = width_of(ls[i].as_str());
        assert(texts_view(ls@).take(i + 1).drop_last() =~= texts_view(ls@).take(i as int));
        if n > w {
            w = n;
        }
        i = i + 1;
    }
    assert(texts_view(ls@).take(i as int) =~= texts_view(ls@));
    w
}

proof fn lemma_widest(ls: Seq<Seq<char>>, i: int)
    requires
        0 <= i < ls.len(),
    ensures
        ls[i].len() <= widest(ls),
    decreases ls.len(),
{
    if i < ls.len() - 1 {
        lemma_widest(ls.drop_last(), i);
    }
}

proof fn lemma_rows_push(rows: Seq<Seq<char>>, row: Seq<char>)
    ensures
        rows_text(rows.push(row)) == rows_text(rows) + row + seq!['\n'],
{
    assert(rows.push(row).drop_last() =~= rows);
}

/// Lines framed by a box with a title. Widths are counted in characters, so that the borders stay
/// aligned.
pub fn print_box(title: &str, ls: &Vec<String>) -> (r: String)
    requires
        box_width(title@, texts_view(ls@)) + 2 <= usize::MAX,
    ensures
        r@ == rows_text(box_rows(title@, texts_view(ls@))),
{
    let ghost view = texts_view(ls@);
    let ghost rows = box_rows(title@, view);
    let t = width_of(title);
    let w: usize = widest_of(ls, t) + 2;
    let mut out = String::new();
    out.push('╭');
    out.push('─');
    out.push(' ');
    out.append(title);
    out.push(' ');
    push_repeat(&mut out, '─', w - t - 1);
    out.push('╮');
    out.push('\n');
    proof {
        lemma_rows_push(seq![], rows[0]);
        assert(rows_text(seq![]) =~= seq![]);
        assert(rows.take(1) =~= Seq::empty().push(rows[0]));
        assert(out@ =~= rows_text(rows.take(1)));
    }
    let mut i: usize = 0;
    while i < ls.len()
        invariant
            i <= ls@.len(),
            view == texts_view(ls@),
            w == box_width(title@, view),
            rows == box_rows(title@, view),
            out@ == rows_text(rows.take(i + 1)),
        decreases ls@.len() - i,
    {
        proof {
            lemma_widest(view, i as int);
            assert(view[i as int] == ls@[i as int]@);
            lemma_rows_push(rows.take(i + 1), rows[i + 1]);
            assert(rows.take(i + 2) =~= rows.take(i + 1).push(rows[i + 1]));
            assert(rows[i + 1] == barred('│', view[i as int], w as int));
        }
        push_barred(&mut out, '│', ls[i].as_str(), w);
        i = i + 1;
    }
    let ghost before = out@;
    out.push('╰');
    push_repeat(&mut out, '─', w + 2);
    out.push('╯');
    out.push('\n');
    proof {
        lemma_rows_push(rows.take(i + 1), rows[i + 1]);
        assert(rows =~= rows.take(i + 1).push(rows[i + 1]));
        assert(out@ =~= before + rows[i + 1] + seq!['\n']);
    }
    out
}

/// All rows of a box are equally wide.
pub proof fn box_is_aligned(title: Seq<char>, ls: Seq<Seq<char>>, i: int)
    requires
        0 <= i < box_rows(title, ls).len(),
    ensures
        box_rows(title, ls)[i].len() == box_width(title, ls) + 4,
{
    if 0 < i <= ls.len() {
        lemma_widest(ls, i - 1);
        assert(box_rows(title, ls)[i] == barred('│', ls[i - 1], box_width(title, ls) as int));
    }
}

/// The header of a run.
pub open spec fn header_rows(file: Seq<char>, output: Seq<char>) -> Seq<Seq<char>> {
    let a = "File: "@ + file;
    let b = "Output: "@ + output;
    let w = larger(a.len(), b.len()) as int;
    seq![
        seq!['╔'] + repeat('═', w + 2) + seq!['╗'],
        barred('║', a, w),
        barred('║', b, w),
        seq!['╚'] + repeat('═', w + 2) + seq!['╝'],
        seq![],
    ]
}

/// Shows where the input of a run comes from and where its output goes.
pub fn print_header(file: &str, output: &str) -> (r: String)
    requires
        file@.len() + 8 <= usize::MAX - 2,
        output@.len() + 10 <= usize::MAX - 2,
    ensures
        r@ == rows_text(header_rows(file@, output@)),
{
    let a = concat("File: ", file);
    let b = concat("Output: ", output);
    proof {
        reveal_strlit("File: ");
        reveal_strlit("Output: ");
    }
    let wa = width_of(a.as_str());
    let wb = width_of(b.as_str());
    let w: usize = if wa >= wb { wa } else { wb };
    let ghost rows = header_rows(file@, output@);
    let mut out = String::new();
    out.push('╔');
    push_repeat(&mut out, '═', w + 2);
    out.push('╗');
    assert(out@ =~= rows[0]);
    out.push('\n');
    proof {
        lemma_next_row(rows, 0);
        assert(rows_text(rows.take(0)) =~= seq![]);
        assert(out@ =~= rows_text(rows.take(1)));
    }
    push_barred(&mut out, '║', a.as_str(), w);
    proof {
        lemma_next_row(rows, 1);
        assert(out@ =~= rows_text(rows.take(2)));
    }
    push_barred(&mut out, '║', b.as_str(), w);
    proof {
        lemma_next_row(rows, 2);
        assert(out@ =~= rows_text(rows.take(3)));
    }
    let ghost so_far = out@;
    out.push('╚');
    push_repeat(&mut out, '═', w + 2);
    out.push('╝');
    assert(out@ =~= so_far + rows[3]);
    out.push('\n');
    proof {
        lemma_next_row(rows, 3);
        assert(out@ =~= rows_text(rows.take(4)));
    }
    out.push('\n');
    proof {
        lemma_next_row(rows, 4);
        assert(rows.take(5) =~= rows);
        assert(out@ =~= rows_text(rows));
    }
    out
}

/// The text of one row more.
proof fn lemma_next_row(rows: Seq<Seq<char>>, k: int)
    requires
        0 <= k < rows.len(),
    ensures
        rows_text(rows.take(k + 1)) == rows_text(rows.take(k)) + rows[k] + seq!['\n'],
{
    assert(rows.take(k + 1).drop_last() =~= rows.take(k));
    assert(rows.take(k + 1).last() == rows[k]);
}

/// Reports how many expressions were loaded.
pub fn print_loaded(expressions: usize) -> (r: String)
    ensures
        r@ == "✓ Loaded "@ + dec_text(expressions as nat) + " expressions\n\n"@,
{
    let mut out = concat("✓ Loaded ", u64_text(expressions as u64).as_str());
    out.append(" expressions\n\n");
    out
}

/// A label and a number.
fn labelled(label: &str, n: u128, unit: &str) -> (r: String)
    ensures
        r@ == label@ + dec_text(n as nat) + unit@,
{
    let mut out = concat(label, u128_text(n).as_str());
    out.append(unit);
    out
}

/// The lines of a run's summary.
pub open spec fn execution_lines(
    steps: nat,
    elapsed_ms: nat,
    unifications: nat,
    writes: nat,
    transitions: nat,
) -> Seq<Seq<char>> {
    seq![
        "Steps: "@ + dec_text(steps) + ""@,
        "Time: "@ + dec_text(elapsed_ms) + " ms"@,
        "Unifications: "@ + dec_text(unifications) + ""@,
        "Writes: "@ + dec_text(writes) + ""@,
        "Transitions: "@ + dec_text(transitions) + ""@,
    ]
}

/// Summarises a run.
pub fn print_execution(
    steps: usize,
    elapsed_ms: u128,
    unifications: usize,
    writes: usize,
    transitions: usize,
) -> (r: String)
    ensures
        r@ == rows_text(
            box_rows(
                "Execution"@,
                execution_lines(
                    steps as nat,
                    elapsed_ms as nat,
                    unifications as nat,
                    writes as nat,
                    transitions as nat,
                ),
            ),
        ) + "\n"@,
{
    let mut ls: Vec<String> = Vec::new();
    ls.push(labelled("Steps: ", steps as u128, ""));
    ls.push(labelled("Time: ", elapsed_ms, " ms"));
    ls.push(labelled("Unifications: ", unifications as u128, ""));
    ls.push(labelled("Writes: ", writes as u128, ""));
    ls.push(labelled("Transitions: ", transitions as u128, ""));
    proof {
        let want = execution_lines(
            steps as nat,
            elapsed_ms as nat,
            unifications as nat,
            writes as nat,
            transitions as nat,
        );
        assert(texts_view(ls@) =~= want);
        lemma_execution_width(want);
        crate::text::lemma_dec_text_len(steps as nat);
        crate::text::lemma_u128_digits(elapsed_ms);
        crate::text::lemma_dec_text_len(unifications as nat);
        crate::text::lemma_dec_text_len(writes as nat);
        crate::text::lemma_dec_text_len(transitions as nat);
        reveal_strlit("Steps: ");
        reveal_strlit("Time: ");
        reveal_strlit("Unifications: ");
        reveal_strlit("Writes: ");
        reveal_strlit("Transitions: ");
        reveal_strlit("");
        reveal_strlit(" ms");
        reveal_strlit("Execution");
    }
    let mut out = print_box("Execution", &ls);
    out.append("\n");
    out
}

proof fn lemma_execution_width(ls: Seq<Seq<char>>)
    ensures
        widest(ls) == 0 || exists|i: int| 0 <= i < ls.len() && widest(ls) == (#[trigger] ls[i]).len(),
    decreases ls.len(),
{
    if ls.len() > 0 {
        lemma_execution_width(ls.drop_last());
        if widest(ls) == widest(ls.drop_last()) && widest(ls) != 0 {
            let i = choose|i: int|
                0 <= i < ls.drop_last().len() && widest(ls.drop_last()) == (
                #[trigger] ls.drop_last()[i]).len();
            assert(ls[i].len() == widest(ls));
        } else {
            assert(ls[ls.len() - 1].len() == ls.last().len());
        }
    }
}

/// Shows how much is about to be dumped.
pub fn print_dumping(count: usize) -> (r: String)
    ensures
        r@ == rows_text(
            box_rows("Dumping"@, seq!["Expressions: "@ + dec_text(count as nat) + ""@]),
        ) + "\n"@,
{
    let mut ls: Vec<String> = Vec::new();
    ls.push(labelled("Expressions: ", count as u128, ""));
    proof {
        let want = seq!["Expressions: "@ + dec_text(count as nat) + ""@];
        assert(texts_view(ls@) =~= want);
        lemma_execution_width(want);
        crate::text::lemma_dec_text_len(count as nat);
        reveal_strlit("Expressions: ");
        reveal_strlit("");
        reveal_strlit("Dumping");
    }
    let mut out = print_box("Dumping", &ls);
    out.append("\n");
    out
}

/// Frames the result of a run, line by line.
pub fn print_result(result: &str) -> (r: String)
    requires
        result@.len() + 10 <= usize::MAX,
    ensures
        r@ == rows_text(box_rows("Result"@, lines_from(result@, 0))),
{
    let ls = lines(result);
    proof {
        assert(texts_view(ls@) =~= lines_from(result@, 0));
        lemma_line_widths(result@, 0);
        lemma_execution_width(lines_from(result@, 0));
        reveal_strlit("Result");
    }
    print_box("Result", &ls)
}

proof fn lemma_line_widths(s: Seq<char>, i: int)
    ensures
        forall|k: int|
            0 <= k < lines_from(s, i).len() ==> (#[trigger] lines_from(s, i)[k]).len() <= s.len(),
    decreases s.len() - i,
{
    if 0 <= i < s.len() {
        let end = crate::steps::line_end(s, i);
        crate::steps::lemma_line_end(s, i);
        if end < s.len() {
            lemma_line_widths(s, end + 1);
            let rest = lines_from(s, end + 1);
            assert forall|k: int| 0 <= k < lines_from(s, i).len() implies (#[trigger] lines_from(
                s,
                i,
            )[k]).len() <= s.len() by {
                if k > 0 {
                    assert(lines_from(s, i)[k] == rest[k - 1]);
                }
            }
        }
    }
}

} // verus!
