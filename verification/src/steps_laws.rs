//! What lines are, and that listings are parked and shown line by line, with none left out.
use vstd::prelude::*;

use crate::read::{shown_from, shown_lines};
use crate::steps::{
    lemma_line_end, line_end, lines_from, paused_from, trim_line, without_line_ends,
};
use crate::wrap::unwrapped_text;

verus! {

proof fn lemma_end_found(s: Seq<char>, i: int, e: int)
    requires
        0 <= i <= e <= s.len(),
        forall|j: int| i <= j < e ==> #[trigger] s[j] != '\n',
        e < s.len() ==> s[e] == '\n',
    ensures
        line_end(s, i) == e,
    decreases e - i,
{
    if i < e {
        assert(s[i] != '\n');
        lemma_end_found(s, i + 1, e);
    }
}

proof fn lemma_end_free(s: Seq<char>, i: int)
    requires
        0 <= i <= s.len(),
    ensures
        forall|j: int| i <= j < line_end(s, i) ==> #[trigger] s[j] != '\n',
    decreases s.len() - i,
{
    if i < s.len() && s[i] != '\n' {
        lemma_end_free(s, i + 1);
    }
}

/// Lines do not depend on what stands before them.
proof fn lemma_shift(head: Seq<char>, s: Seq<char>, i: int)
    requires
        0 <= i <= s.len(),
    ensures
        lines_from(head + s, head.len() + i) == lines_from(s, i),
    decreases s.len() - i,
{
    let t = head + s;
    let n = head.len() as int;
    if i < s.len() {
        lemma_line_end(s, i);
        lemma_end_free(s, i);
        let e = line_end(s, i);
        assert forall|j: int| n + i <= j < n + e implies #[trigger] t[j] != '\n' by {
            assert(t[j] == s[j - n]);
        }
        if e < s.len() {
            assert(t[n + e] == s[e]);
        }
        lemma_end_found(t, n + i, n + e);
        if e < s.len() {
            assert(t.subrange(n + i, n + e) =~= s.subrange(i, e));
            if i < e {
                assert(t[n + e - 1] == s[e - 1]);
                assert(t.subrange(n + i, n + e - 1) =~= s.subrange(i, e - 1));
            }
            lemma_shift(head, s, e + 1);
        } else {
            assert(t.skip(n + i) =~= s.skip(i));
        }
    }
}

/// A line that is closed comes first, without the carriage return that may close it, and the lines
/// of the rest follow; what is not closed is a line of its own, unless it is empty. Every text is
/// one or the other.
pub proof fn lines_come_one_by_one(line: Seq<char>, rest: Seq<char>)
    requires
        !line.contains('\n'),
    ensures
        lines_from(line + seq!['\n'] + rest, 0) == seq![
            if line.len() > 0 && line.last() == '\r' {
                line.drop_last()
            } else {
                line
            },
        ] + lines_from(rest, 0),
        lines_from(line, 0) == if line.len() == 0 {
            Seq::<Seq<char>>::empty()
        } else {
            seq![line]
        },
{
    let s = line + seq!['\n'] + rest;
    let n = line.len() as int;
    assert forall|j: int| 0 <= j < n implies #[trigger] s[j] != '\n' by {
        assert(s[j] == line[j]);
        assert(line.contains(line[j]));
    }
    assert(s[n] == '\n');
    lemma_end_found(s, 0, n);
    assert(s =~= (line + seq!['\n']) + rest);
    lemma_shift(line + seq!['\n'], rest, 0);
    assert(s.subrange(0, n) =~= line);
    if n > 0 {
        assert(s[n - 1] == line[n - 1]);
        assert(s.subrange(0, n - 1) =~= line.drop_last());
        assert forall|j: int| 0 <= j < n implies #[trigger] line[j] != '\n' by {
            assert(line.contains(line[j]));
        }
        lemma_end_found(line, 0, n);
        assert(line.skip(0) =~= line);
    }
}

/// No line holds a line end.
pub proof fn lines_hold_no_line_end(s: Seq<char>, i: int, k: int)
    requires
        0 <= i <= s.len(),
        0 <= k < lines_from(s, i).len(),
    ensures
        !lines_from(s, i)[k].contains('\n'),
    decreases s.len() - i,
{
    lemma_line_end(s, i);
    lemma_end_free(s, i);
    let e = line_end(s, i);
    if e >= s.len() {
        let l = s.skip(i);
        assert forall|j: int| 0 <= j < l.len() implies #[trigger] l[j] != '\n' by {
            assert(l[j] == s[j + i]);
        }
    } else {
        let l = trim_line(s, i, e);
        assert forall|j: int| 0 <= j < l.len() implies #[trigger] l[j] != '\n' by {
            assert(l[j] == s[j + i]);
        }
        let rest = lines_from(s, e + 1);
        if k > 0 {
            assert(lines_from(s, i)[k] == rest[k - 1]);
            lines_hold_no_line_end(s, e + 1, k - 1);
        }
    }
}

/// A kept front item stays in front.
proof fn lemma_filter_front(ls: Seq<Seq<char>>, k: int)
    requires
        0 <= k < ls.len(),
    ensures
        ({
            let kept = |l: Seq<char>| l.len() > 0;
            ls.skip(k).filter(kept) == if ls[k].len() > 0 {
                seq![ls[k]] + ls.skip(k + 1).filter(kept)
            } else {
                ls.skip(k + 1).filter(kept)
            }
        }),
{
    let kept = |l: Seq<char>| l.len() > 0;
    let one = seq![ls[k]];
    assert(ls.skip(k) =~= one + ls.skip(k + 1));
    Seq::filter_distributes_over_add(one, ls.skip(k + 1), kept);
    reveal_with_fuel(Seq::filter, 2);
    assert(one.drop_last() =~= Seq::<Seq<char>>::empty());
    assert(one.last() == ls[k]);
    assert(one.filter(kept) =~= if ls[k].len() > 0 {
        one
    } else {
        Seq::<Seq<char>>::empty()
    });
    assert(Seq::<Seq<char>>::empty() + ls.skip(k + 1).filter(kept) =~= ls.skip(k + 1).filter(kept));
}

proof fn lemma_flatten_front(a: Seq<char>, rest: Seq<Seq<char>>)
    ensures
        (seq![a] + rest).flatten() == a + rest.flatten(),
{
    assert((seq![a] + rest).first() == a);
    assert((seq![a] + rest).drop_first() =~= rest);
}

/// The parked text is, line for line and in order, every line of the listing that is not empty,
/// made inert: as many lines go in as came out, and none is left out, cut or put elsewhere.
pub proof fn every_pending_exec_is_parked(ls: Seq<Seq<char>>)
    ensures
        paused_from(ls, 0) == ls.filter(|l: Seq<char>| l.len() > 0).map_values(
            |l: Seq<char>| "(paused "@ + l + ")\n"@,
        ).flatten(),
{
    assert(ls.skip(0) =~= ls);
    lemma_parked(ls, 0);
}

proof fn lemma_parked(ls: Seq<Seq<char>>, k: int)
    requires
        0 <= k <= ls.len(),
    ensures
        paused_from(ls, k) == ls.skip(k).filter(|l: Seq<char>| l.len() > 0).map_values(
            |l: Seq<char>| "(paused "@ + l + ")\n"@,
        ).flatten(),
    decreases ls.len() - k,
{
    let kept = |l: Seq<char>| l.len() > 0;
    let made = |l: Seq<char>| "(paused "@ + l + ")\n"@;
    if k < ls.len() {
        lemma_parked(ls, k + 1);
        lemma_filter_front(ls, k);
        let rest = ls.skip(k + 1).filter(kept);
        if ls[k].len() > 0 {
            assert((seq![ls[k]] + rest).map_values(made) =~= seq![made(ls[k])] + rest.map_values(
                made,
            ));
            lemma_flatten_front(made(ls[k]), rest.map_values(made));
        }
    } else {
        reveal(Seq::filter);
        assert(ls.skip(k) =~= Seq::<Seq<char>>::empty());
        assert(ls.skip(k).filter(kept).map_values(made) =~= Seq::<Seq<char>>::empty());
        assert(Seq::<Seq<char>>::empty().flatten() =~= Seq::<char>::empty());
    }
}

/// Read as lines, the parked text has one line for each line of the listing that is not empty, in
/// the same order, and each is that line behind `(paused ` and before `)`.
pub proof fn parked_lines_match_the_listing(text: Seq<char>)
    ensures
        lines_from(paused_from(lines_from(text, 0), 0), 0) == lines_from(text, 0).filter(
            |l: Seq<char>| l.len() > 0,
        ).map_values(|l: Seq<char>| "(paused "@ + l + seq![')']),
{
    let ls = lines_from(text, 0);
    assert forall|k: int| 0 <= k < ls.len() implies !(#[trigger] ls[k]).contains('\n') by {
        lines_hold_no_line_end(text, 0, k);
    }
    lemma_parked_lines(ls, 0);
    assert(ls.skip(0) =~= ls);
}

proof fn lemma_parked_lines(ls: Seq<Seq<char>>, k: int)
    requires
        0 <= k <= ls.len(),
        forall|j: int| 0 <= j < ls.len() ==> !(#[trigger] ls[j]).contains('\n'),
    ensures
        lines_from(paused_from(ls, k), 0) == ls.skip(k).filter(
            |l: Seq<char>| l.len() > 0,
        ).map_values(|l: Seq<char>| "(paused "@ + l + seq![')']),
    decreases ls.len() - k,
{
    let kept = |l: Seq<char>| l.len() > 0;
    let made = |l: Seq<char>| "(paused "@ + l + seq![')'];
    if k < ls.len() {
        lemma_parked_lines(ls, k + 1);
        lemma_filter_front(ls, k);
        let rest = ls.skip(k + 1).filter(kept);
        if ls[k].len() > 0 {
            let line = made(ls[k]);
            let tail = paused_from(ls, k + 1);
            reveal_strlit("(paused ");
            reveal_strlit(")\n");
            assert(paused_from(ls, k) =~= line + seq!['\n'] + tail);
            assert(line.last() == ')');
            assert(!line.contains('\n')) by {
                assert forall|j: int| 0 <= j < line.len() implies #[trigger] line[j] != '\n' by {
                    if 8 <= j < line.len() - 1 {
                        assert(line[j] == ls[k][j - 8]);
                        assert(ls[k].contains(ls[k][j - 8]));
                    }
                }
            }
            lines_come_one_by_one(line, tail);
            assert((seq![ls[k]] + rest).map_values(made) =~= seq![line] + rest.map_values(made));
        }
    } else {
        reveal(Seq::filter);
        assert(ls.skip(k) =~= Seq::<Seq<char>>::empty());
        assert(ls.skip(k).filter(kept).map_values(made) =~= Seq::<Seq<char>>::empty());
    }
}

/// An export shows, in order, every line of the listing that is not empty, without wrappers, and
/// closes each with a line end. The same lines come as a list.
pub proof fn every_line_is_shown(ls: Seq<Seq<char>>)
    ensures
        shown_lines(ls, 0) == ls.filter(|l: Seq<char>| l.len() > 0).map_values(
            |l: Seq<char>| unwrapped_text(l).0,
        ),
        shown_from(ls, 0) == ls.filter(|l: Seq<char>| l.len() > 0).map_values(
            |l: Seq<char>| unwrapped_text(l).0 + seq!['\n'],
        ).flatten(),
        shown_lines(ls, 0).len() == ls.filter(|l: Seq<char>| l.len() > 0).len(),
{
    assert(ls.skip(0) =~= ls);
    lemma_shown(ls, 0);
}

proof fn lemma_shown(ls: Seq<Seq<char>>, k: int)
    requires
        0 <= k <= ls.len(),
    ensures
        shown_lines(ls, k) == ls.skip(k).filter(|l: Seq<char>| l.len() > 0).map_values(
            |l: Seq<char>| unwrapped_text(l).0,
        ),
        shown_from(ls, k) == ls.skip(k).filter(|l: Seq<char>| l.len() > 0).map_values(
            |l: Seq<char>| unwrapped_text(l).0 + seq!['\n'],
        ).flatten(),
    decreases ls.len() - k,
{
    let kept = |l: Seq<char>| l.len() > 0;
    let made = |l: Seq<char>| unwrapped_text(l).0 + seq!['\n'];
    let bare = |l: Seq<char>| unwrapped_text(l).0;
    if k < ls.len() {
        lemma_shown(ls, k + 1);
        lemma_filter_front(ls, k);
        let rest = ls.skip(k + 1).filter(kept);
        if ls[k].len() > 0 {
            reveal_strlit("\n");
            assert("\n"@ =~= seq!['\n']);
            assert((seq![ls[k]] + rest).map_values(made) =~= seq![made(ls[k])] + rest.map_values(
                made,
            ));
            assert((seq![ls[k]] + rest).map_values(bare) =~= seq![bare(ls[k])] + rest.map_values(
                bare,
            ));
            lemma_flatten_front(made(ls[k]), rest.map_values(made));
        }
    } else {
        reveal(Seq::filter);
        assert(ls.skip(k) =~= Seq::<Seq<char>>::empty());
        assert(ls.skip(k).filter(kept).map_values(made) =~= Seq::<Seq<char>>::empty());
        assert(ls.skip(k).filter(kept).map_values(bare) =~= Seq::<Seq<char>>::empty());
        assert(Seq::<Seq<char>>::empty().flatten() =~= Seq::<char>::empty());
    }
}

/// A text without the line ends behind it: putting them back gives the text, and none is left.
pub proof fn only_line_ends_are_cut(s: Seq<char>)
    ensures
        without_line_ends(s).is_prefix_of(s),
        forall|i: int| without_line_ends(s).len() <= i < s.len() ==> #[trigger] s[i] == '\n',
        without_line_ends(s).len() > 0 ==> without_line_ends(s).last() != '\n',
    decreases s.len(),
{
    if s.len() > 0 && s.last() == '\n' {
        only_line_ends_are_cut(s.drop_last());
        let cut = without_line_ends(s);
        assert(cut =~= s.subrange(0, cut.len() as int));
        assert forall|i: int| cut.len() <= i < s.len() implies #[trigger] s[i] == '\n' by {
            if i < s.len() - 1 {
                assert(s.drop_last()[i] == s[i]);
            }
        }
    }
}

} // verus!
