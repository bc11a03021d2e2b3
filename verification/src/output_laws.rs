//! What is printed: every line in its box, unchanged and in order, between edges that align.
use vstd::prelude::*;

use crate::output::{box_rows, box_width, execution_lines, header_rows, rows_text, widest};
use crate::text::dec_text;

verus! {

/// Rows are printed in order, each on a line of its own.
pub proof fn rows_are_printed_in_order(rows: Seq<Seq<char>>)
    ensures
        rows_text(rows) == rows.map_values(|r: Seq<char>| r.push('\n')).flatten(),
    decreases rows.len(),
{
    let ended = |r: Seq<char>| r.push('\n');
    let parts = rows.map_values(ended);
    if rows.len() == 0 {
        assert(parts =~= seq![]);
        reveal_with_fuel(Seq::flatten, 1);
    } else {
        rows_are_printed_in_order(rows.drop_last());
        let front = rows.drop_last().map_values(ended);
        assert(parts =~= front.push(rows.last().push('\n')));
        front.lemma_flatten_push(rows.last().push('\n'));
        assert(rows.last() + seq!['\n'] =~= rows.last().push('\n'));
        assert(rows_text(rows) =~= rows_text(rows.drop_last()) + rows.last().push('\n'));
    }
}

/// The width of lines is that of the longest: none is longer, and one is as long, unless there is
/// none.
pub proof fn the_widest_line_counts(ls: Seq<Seq<char>>)
    ensures
        forall|i: int| 0 <= i < ls.len() ==> (#[trigger] ls[i]).len() <= widest(ls),
        ls.len() > 0 ==> exists|i: int| 0 <= i < ls.len() && (#[trigger] ls[i]).len() == widest(ls),
        ls.len() == 0 ==> widest(ls) == 0,
    decreases ls.len(),
{
    if ls.len() > 0 {
        let front = ls.drop_last();
        the_widest_line_counts(front);
        assert forall|i: int| 0 <= i < ls.len() implies (#[trigger] ls[i]).len() <= widest(ls) by {
            if i < front.len() {
                assert(front[i] == ls[i]);
            }
        }
        if ls.last().len() >= widest(front) {
            assert(ls[ls.len() - 1].len() == widest(ls));
        } else {
            let i = choose|i: int| 0 <= i < front.len() && (#[trigger] front[i]).len() == widest(
                front,
            );
            assert(ls[i].len() == widest(ls));
        }
    }
}

/// The character, as often as that.
pub open spec fn run_of(c: char, s: Seq<char>) -> bool {
    forall|i: int| 0 <= i < s.len() ==> #[trigger] s[i] == c
}

/// A box holds its title in the upper edge and its lines, unchanged and in order, each between two
/// bars and filled up with spaces. It is two wider than the longest of them, at least.
pub proof fn a_box_holds_its_lines(title: Seq<char>, ls: Seq<Seq<char>>, i: int)
    requires
        0 <= i < ls.len(),
    ensures
        ({
            let rows = box_rows(title, ls);
            let w = box_width(title, ls) as int;
            &&& rows.len() == ls.len() + 2
            &&& w >= ls[i].len() + 2 && w >= title.len() + 2
            &&& w == title.len() + 2 || exists|k: int|
                0 <= k < ls.len() && w == (#[trigger] ls[k]).len() + 2
            &&& rows[0].take(3) == seq!['╭', '─', ' ']
            &&& rows[0].subrange(3, 3 + title.len() as int) == title
            &&& rows[0][3 + title.len() as int] == ' '
            &&& run_of('─', rows[0].subrange(4 + title.len() as int, rows[0].len() - 1))
            &&& rows[0].last() == '╮'
            &&& rows[i + 1].take(2) == seq!['│', ' ']
            &&& rows[i + 1].subrange(2, 2 + ls[i].len() as int) == ls[i]
            &&& run_of(' ', rows[i + 1].subrange(2 + ls[i].len() as int, rows[i + 1].len() - 1))
            &&& rows[i + 1].last() == '│'
            &&& rows.last()[0] == '╰'
            &&& run_of('─', rows.last().subrange(1, rows.last().len() - 1))
            &&& rows.last().last() == '╯'
            &&& rows[0].len() == w + 4 && rows[i + 1].len() == w + 4 && rows.last().len() == w + 4
        }),
{
    the_widest_line_counts(ls);
    let rows = box_rows(title, ls);
    let w = box_width(title, ls) as int;
    crate::output::box_is_aligned(title, ls, 0);
    crate::output::box_is_aligned(title, ls, i + 1);
    crate::output::box_is_aligned(title, ls, rows.len() - 1);
    if w != title.len() + 2 {
        let k = choose|k: int| 0 <= k < ls.len() && (#[trigger] ls[k]).len() == widest(ls);
        assert(w == ls[k].len() + 2);
    }
    assert(rows[0].take(3) =~= seq!['╭', '─', ' ']);
    assert(rows[0].subrange(3, 3 + title.len() as int) =~= title);
    assert(rows[i + 1].take(2) =~= seq!['│', ' ']);
    assert(rows[i + 1].subrange(2, 2 + ls[i].len() as int) =~= ls[i]);
}

/// The header names the file and the output, each between two bars and filled up with spaces.
pub proof fn the_header_names_file_and_output(file: Seq<char>, output: Seq<char>)
    ensures
        ({
            let rows = header_rows(file, output);
            let a = "File: "@ + file;
            let b = "Output: "@ + output;
            &&& rows.len() == 5
            &&& rows[0][0] == '╔' && rows[0].last() == '╗' && run_of(
                '═',
                rows[0].subrange(1, rows[0].len() - 1),
            )
            &&& rows[1].take(2) == seq!['║', ' '] && rows[1].subrange(2, 2 + a.len() as int) == a
            &&& run_of(' ', rows[1].subrange(2 + a.len() as int, rows[1].len() - 1)) && rows[1].last()
                == '║'
            &&& rows[2].take(2) == seq!['║', ' '] && rows[2].subrange(2, 2 + b.len() as int) == b
            &&& run_of(' ', rows[2].subrange(2 + b.len() as int, rows[2].len() - 1)) && rows[2].last()
                == '║'
            &&& rows[3][0] == '╚' && rows[3].last() == '╝' && run_of(
                '═',
                rows[3].subrange(1, rows[3].len() - 1),
            )
            &&& rows[4].len() == 0
            &&& rows[0].len() == rows[1].len() && rows[1].len() == rows[2].len() && rows[2].len()
                == rows[3].len()
            &&& rows[1].len() == a.len() + 4 || rows[1].len() == b.len() + 4
        }),
{
    let rows = header_rows(file, output);
    let a = "File: "@ + file;
    let b = "Output: "@ + output;
    assert(rows[1].take(2) =~= seq!['║', ' ']);
    assert(rows[1].subrange(2, 2 + a.len() as int) =~= a);
    assert(rows[2].take(2) =~= seq!['║', ' ']);
    assert(rows[2].subrange(2, 2 + b.len() as int) =~= b);
}

/// A report has five lines, each with the number that it is of.
pub proof fn a_report_tells_each_number(
    steps: nat,
    elapsed_ms: nat,
    unifications: nat,
    writes: nat,
    transitions: nat,
)
    ensures
        ({
            let ls = execution_lines(steps, elapsed_ms, unifications, writes, transitions);
            &&& ls.len() == 5
            &&& ls[0] == "Steps: "@ + dec_text(steps)
            &&& ls[1] == "Time: "@ + dec_text(elapsed_ms) + " ms"@
            &&& ls[2] == "Unifications: "@ + dec_text(unifications)
            &&& ls[3] == "Writes: "@ + dec_text(writes)
            &&& ls[4] == "Transitions: "@ + dec_text(transitions)
        }),
{
    reveal_strlit("");
    let ls = execution_lines(steps, elapsed_ms, unifications, writes, transitions);
    assert(ls[0] =~= "Steps: "@ + dec_text(steps));
    assert(ls[2] =~= "Unifications: "@ + dec_text(unifications));
    assert(ls[3] =~= "Writes: "@ + dec_text(writes));
    assert(ls[4] =~= "Transitions: "@ + dec_text(transitions));
}

} // verus!
