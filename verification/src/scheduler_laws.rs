//! What scheduling is for: which rule serves which process, how much each process may use, and
//! that a round ends only when nothing is left to serve.
use vstd::prelude::*;
use vstd::utf8::{encode_utf8, valid_utf8};

use crate::bytes::starts_with;
use crate::expr::{
    encodable, encode, encode_all, read_of_encode, ExprTree,
};
use crate::paths::{path_lt, path_lt_irreflexive};
use crate::scheduler::{
    advance, after_look, credits_of, exec_prefix, rule_process, rules_of, serves, slots_of,
    step_action,
    was_process_among, was_process_of, RoundView, Rules, ScheduleAction, SchedulePolicy, Stock,
};
use crate::sweep::registry::{take_existing, taking_counts_every_candidate, waiting};

verus! {

/// `(WAS process x)` draws from the process that it names.
pub proof fn a_source_names_its_process(id: Seq<char>, x: ExprTree)
    ensures
        was_process_of(
            ExprTree::List(
                seq![
                    ExprTree::Symbol(encode_utf8("WAS"@)),
                    ExprTree::Symbol(encode_utf8(id)),
                    x,
                ],
            ),
        ) == Some(id),
{
    vstd::utf8::encode_utf8_valid_utf8(id);
    vstd::utf8::encode_utf8_decode_utf8(id);
}

proof fn lemma_among(items: Seq<ExprTree>, i: nat, k: nat)
    requires
        i <= k <= items.len(),
        forall|j: int| i <= j < k ==> was_process_of(#[trigger] items[j]) is None,
        k < items.len() ==> was_process_of(items[k as int]) is Some,
    ensures
        was_process_among(items, i) == if k < items.len() {
            was_process_of(items[k as int])
        } else {
            None
        },
    decreases k - i,
{
    if i < k {
        assert(was_process_of(items[i as int]) is None);
        lemma_among(items, i + 1, k);
    }
}

/// Any other list draws from the process that the first of its arguments to name one names, and
/// from none where none of them does; what is no list draws from none.
pub proof fn the_first_source_counts(items: Seq<ExprTree>, k: nat)
    requires
        !(items.len() == 3 && items[0] == ExprTree::Symbol(encode_utf8("WAS"@)) && (
        items[1] matches ExprTree::Symbol(id) && valid_utf8(id))),
        items.len() == 0 || 1 <= k <= items.len(),
        forall|j: int| 1 <= j < k ==> was_process_of(#[trigger] items[j]) is None,
        k < items.len() ==> was_process_of(items[k as int]) is Some,
    ensures
        was_process_of(ExprTree::List(items)) == if k < items.len() {
            was_process_of(items[k as int])
        } else {
            None
        },
        was_process_of(ExprTree::NewVar) is None,
        forall|i: u8| #[trigger] was_process_of(ExprTree::VarRef(i)) is None,
        forall|b: Seq<u8>| #[trigger] was_process_of(ExprTree::Symbol(b)) is None,
{
    if items.len() > 0 {
        lemma_among(items, 1, k);
    }
}

/// A rule's process is the one that its expression draws from.
pub proof fn a_rule_is_read_as_an_expression(t: ExprTree, tail: Seq<u8>)
    requires
        encodable(t),
    ensures
        rule_process(encode(t) + tail) == was_process_of(t),
{
    let path = encode(t) + tail;
    assert(path.subrange(0, encode(t).len() as int) =~= encode(t));
    read_of_encode(path, 0, t);
}

/// The paths that are looked at for rules are those of the lists `(exec a b c)`.
pub proof fn rules_are_execs(t: ExprTree)
    requires
        encodable(t),
    ensures
        exec_prefix().is_prefix_of(encode(t)) <==> (t matches ExprTree::List(items) && items.len()
            == 4 && items[0] == ExprTree::Symbol(encode_utf8("exec"@))),
{
    let name = ExprTree::Symbol(encode_utf8("exec"@));
    reveal_strlit("exec");
    crate::text::lemma_ascii_bytes("exec"@);
    assert(encode_utf8("exec"@) =~= seq![101u8, 120, 101, 99]) by {
        assert(crate::text::ascii_bytes("exec"@) =~= seq![101u8, 120, 101, 99]);
    }
    let path = encode(t);
    match t {
        ExprTree::List(items) => {
            if items.len() == 4 {
                let rest = encode_all(items.drop_first());
                assert(path =~= seq![4u8] + (encode(items[0]) + rest));
                assert(path.subrange(1, 1 + encode(items[0]).len() as int) =~= encode(items[0]));
                read_of_encode(path, 1, items[0]);
                if items[0] == name {
                    assert(encode(name) =~= seq![0xC4u8, 101, 120, 101, 99]);
                    assert(path.subrange(0, 6) =~= exec_prefix());
                }
                if exec_prefix().is_prefix_of(path) {
                    assert(path.subrange(0, 6) == exec_prefix());
                    assert(path[1] == path.subrange(0, 6)[1]);
                    assert(path.subrange(1, 6) =~= path.subrange(0, 6).subrange(1, 6));
                    assert(path.subrange(1, 6) =~= seq![0xC4u8, 101, 120, 101, 99]);
                    assert(encode(name) =~= seq![0xC4u8, 101, 120, 101, 99]);
                    read_of_encode(path, 1, name);
                }
            } else {
                assert(path[0] == items.len() as u8);
                if exec_prefix().is_prefix_of(path) {
                    assert(path[0] == path.subrange(0, 6)[0]);
                }
            }
        },
        _ => {
            if exec_prefix().is_prefix_of(path) {
                assert(path[0] == path.subrange(0, 6)[0]);
            }
        },
    }
}

/// A process is served by the first exec that draws from it, and a process that no exec draws from
/// by none.
pub proof fn the_first_rule_serves(ps: Seq<Seq<u8>>, id: Seq<char>, k: int)
    requires
        0 <= k <= ps.len(),
        forall|j: int|
            0 <= j < k ==> !(exec_prefix().is_prefix_of(#[trigger] ps[j]) && rule_process(ps[j])
                == Some(id)),
        k < ps.len() ==> exec_prefix().is_prefix_of(ps[k]) && rule_process(ps[k]) == Some(id),
    ensures
        rules_of(ps).contains_key(id) <==> k < ps.len(),
        k < ps.len() ==> rules_of(ps)[id] == ps[k],
    decreases ps.len(),
{
    if ps.len() > 0 {
        let front = ps.drop_last();
        let p = ps.last();
        assert(starts_with(p, exec_prefix()) == exec_prefix().is_prefix_of(p)) by {
            if p.len() >= exec_prefix().len() {
                assert(p.take(exec_prefix().len() as int) =~= p.subrange(
                    0,
                    exec_prefix().len() as int,
                ));
            }
        }
        if k < ps.len() - 1 {
            the_first_rule_serves(front, id, k);
        } else {
            assert forall|j: int| 0 <= j < front.len() implies !(exec_prefix().is_prefix_of(
                #[trigger] front[j],
            ) && rule_process(front[j]) == Some(id)) by {
                assert(front[j] == ps[j]);
            }
            the_first_rule_serves(front, id, front.len() as int);
            if k == ps.len() {
                assert(!(exec_prefix().is_prefix_of(ps[ps.len() - 1]) && rule_process(
                    ps[ps.len() - 1],
                ) == Some(id)));
            }
        }
    }
}

/// A round serves the processes that have a rule, in the given order, each with its credits: those
/// set for it, else those that the policy gives, which is one where the foreground comes first.
pub proof fn a_round_serves_those_with_a_rule(
    order: Seq<Seq<char>>,
    rules: Rules,
    credits: Map<Seq<char>, usize>,
    policy: SchedulePolicy,
)
    ensures
        slots_of(order, rules, credits, policy) == order.filter(
            |p: Seq<char>| rules.contains_key(p),
        ).map_values(
            |p: Seq<char>|
                (
                    p,
                    if credits.contains_key(p) {
                        credits[p]
                    } else if policy is Fair {
                        policy->background_credits_per_process
                    } else {
                        1
                    },
                ),
        ),
    decreases order.len(),
{
    let served = |p: Seq<char>| rules.contains_key(p);
    let slot = |p: Seq<char>|
        (
            p,
            if credits.contains_key(p) {
                credits[p]
            } else if policy is Fair {
                policy->background_credits_per_process
            } else {
                1usize
            },
        );
    reveal_with_fuel(Seq::filter, 1);
    if order.len() == 0 {
        assert(order.filter(served).map_values(slot) =~= seq![]);
    } else {
        a_round_serves_those_with_a_rule(order.drop_last(), rules, credits, policy);
        let front = order.drop_last().filter(served);
        let p = order.last();
        assert(slot(p) == (p, credits_of(credits, policy, p)));
        if served(p) {
            assert(order.filter(served) =~= front.push(p));
            assert(order.filter(served).map_values(slot) =~= front.map_values(slot).push(slot(p)));
        } else {
            assert(order.filter(served) =~= front);
        }
    }
}

/// A rule is run only for a candidate: the process that it serves had one of the current version
/// whose atom exists, which is now the process's selected one. The rule is taken out while it runs,
/// and nothing else is. A round that ends leaves the atoms as they are.
pub proof fn a_rule_is_run_for_a_candidate(r: RoundView, s: Stock, rules: Rules, version: u64)
    requires
        0 <= r.at,
        !r.running,
    ensures
        ({
            let a = advance(r, s, rules, version);
            &&& a.round.work == r.work
            &&& match a.rule {
                Some(rule) => {
                    let process = r.slots[a.round.at].0;
                    &&& a.round.running
                    &&& r.at <= a.round.at < r.slots.len()
                    &&& rules.contains_key(process) && rule == rules[process]
                    &&& s.btm.contains_key(rule)
                    &&& a.stock.btm == s.btm.remove(rule)
                    &&& a.stock.selected.contains_key(process)
                    &&& a.stock.selected[process].version == version
                    &&& s.btm.contains_key(a.stock.selected[process].path)
                },
                None => !a.round.running && a.stock.btm == s.btm,
            }
        }),
    decreases r.slots.len() - r.at, (if 0 <= r.at < r.slots.len() {
        r.slots[r.at].1 - r.used
    } else {
        0
    }),
{
    if r.at < r.slots.len() {
        let (process, owed) = r.slots[r.at];
        let t = take_existing(waiting(s.buffers, process), s.btm, version);
        taking_counts_every_candidate(waiting(s.buffers, process), s.btm, version);
        if r.used >= owed {
            a_rule_is_run_for_a_candidate(
                RoundView { at: r.at + 1, used: 0, ..r },
                s,
                rules,
                version,
            );
        } else if t.found is None {
            a_rule_is_run_for_a_candidate(
                RoundView { at: r.at + 1, used: 0, ..r },
                after_look(s, process, version),
                rules,
                version,
            );
        } else {
            let s1 = after_look(s, process, version);
            let r1 = RoundView { used: r.used + 1, ..r };
            if !(rules.contains_key(process) && s1.btm.contains_key(rules[process])) {
                a_rule_is_run_for_a_candidate(r1, s1, rules, version);
            }
        }
    }
}

/// What a step of a round leaves of the buffers of a process that it does not reach.
proof fn lemma_unreached(r: RoundView, s: Stock, rules: Rules, version: u64, process: Seq<char>)
    requires
        0 <= r.at,
        forall|k: int| r.at <= k < r.slots.len() ==> (#[trigger] r.slots[k]).0 != process,
    ensures
        waiting(advance(r, s, rules, version).stock.buffers, process) == waiting(
            s.buffers,
            process,
        ),
    decreases r.slots.len() - r.at, (if 0 <= r.at < r.slots.len() {
        r.slots[r.at].1 - r.used
    } else {
        0
    }),
{
    if r.at < r.slots.len() {
        let (p, owed) = r.slots[r.at];
        assert(r.slots[r.at].0 != process);
        let t = take_existing(waiting(s.buffers, p), s.btm, version);
        let next = RoundView { at: r.at + 1, used: 0, ..r };
        if r.used >= owed {
            lemma_unreached(next, s, rules, version, process);
        } else if t.found is None {
            lemma_unreached(next, after_look(s, p, version), rules, version, process);
        } else {
            let s1 = after_look(s, p, version);
            let r1 = RoundView { used: r.used + 1, ..r };
            if !(rules.contains_key(p) && s1.btm.contains_key(rules[p])) {
                lemma_unreached(r1, s1, rules, version, process);
            }
        }
    }
}

/// A round ends only when nothing is left to serve: of each process that it had yet to come to,
/// that has credits and whose rule is there, no candidate waits any more.
pub proof fn a_round_ends_when_nothing_is_left(
    r: RoundView,
    s: Stock,
    rules: Rules,
    version: u64,
    k: int,
)
    requires
        0 <= r.at <= k < r.slots.len(),
        forall|i: int, j: int|
            0 <= i < j < r.slots.len() ==> (#[trigger] r.slots[i]).0 != (#[trigger] r.slots[j]).0,
        advance(r, s, rules, version).rule is None,
        r.slots[k].1 > (if k == r.at {
            r.used
        } else {
            0
        }),
        rules.contains_key(r.slots[k].0),
        s.btm.contains_key(rules[r.slots[k].0]),
    ensures
        waiting(advance(r, s, rules, version).stock.buffers, r.slots[k].0).len() == 0,
    decreases r.slots.len() - r.at, (if 0 <= r.at < r.slots.len() {
        r.slots[r.at].1 - r.used
    } else {
        0
    }),
{
    let (p, owed) = r.slots[r.at];
    let t = take_existing(waiting(s.buffers, p), s.btm, version);
    taking_counts_every_candidate(waiting(s.buffers, p), s.btm, version);
    let next = RoundView { at: r.at + 1, used: 0, ..r };
    let s1 = after_look(s, p, version);
    if k == r.at {
        assert(t.found is None);
        assert(waiting(s1.buffers, p).len() == 0);
        assert forall|j: int| next.at <= j < next.slots.len() implies (#[trigger] next.slots[j]).0
            != p by {
            assert(r.slots[r.at].0 != r.slots[j].0);
        }
        lemma_unreached(next, s1, rules, version, p);
    } else if r.used >= owed {
        a_round_ends_when_nothing_is_left(next, s, rules, version, k);
    } else if t.found is None {
        a_round_ends_when_nothing_is_left(next, s1, rules, version, k);
    } else {
        a_round_ends_when_nothing_is_left(
            RoundView { used: r.used + 1, ..r },
            s1,
            rules,
            version,
            k,
        );
    }
}

/// A process whose credits are not used up, whose rule is there and that has a candidate to offer
/// is served next, before any that comes after it, and one credit of it is used.
pub proof fn a_process_is_served_in_its_turn(r: RoundView, s: Stock, rules: Rules, version: u64)
    requires
        0 <= r.at < r.slots.len(),
        r.used < r.slots[r.at].1,
        rules.contains_key(r.slots[r.at].0),
        s.btm.contains_key(rules[r.slots[r.at].0]),
        exists|i: int|
            0 <= i < waiting(s.buffers, r.slots[r.at].0).len() && (#[trigger] waiting(
                s.buffers,
                r.slots[r.at].0,
            )[i]).version == version && s.btm.contains_key(
                waiting(s.buffers, r.slots[r.at].0)[i].path,
            ),
    ensures
        ({
            let a = advance(r, s, rules, version);
            &&& a.rule == Some(rules[r.slots[r.at].0])
            &&& a.round == RoundView { used: r.used + 1, running: true, ..r }
        }),
{
    let b = waiting(s.buffers, r.slots[r.at].0);
    let i = choose|i: int|
        0 <= i < b.len() && (#[trigger] b[i]).version == version && s.btm.contains_key(b[i].path);
    lemma_something_found(b, s.btm, version, i);
}

proof fn lemma_something_found(
    b: Seq<crate::sweep::registry::CandidateView>,
    live: Map<Seq<u8>, u64>,
    version: u64,
    i: int,
)
    requires
        0 <= i < b.len(),
        b[i].version == version,
        live.contains_key(b[i].path),
    ensures
        take_existing(b, live, version).found is Some,
    decreases b.len(),
{
    if !(b[0].version == version && live.contains_key(b[0].path)) {
        assert(b.drop_first()[i - 1] == b[i]);
        lemma_something_found(b.drop_first(), live, version, i - 1);
    }
}

/// A step starts with the foreground; the background comes after it under the fair policy, and
/// under the other where the foreground did nothing. What was done in both is what the step did.
pub proof fn a_step_takes_turns(policy: SchedulePolicy, foreground: usize, background: usize)
    requires
        foreground + background <= usize::MAX,
    ensures
        step_action(policy, None, None) is Foreground,
        step_action(policy, Some(foreground), None) is Background <==> policy is Fair || foreground
            == 0,
        !(step_action(policy, Some(foreground), None) is Background) ==> step_action(
            policy,
            Some(foreground),
            None,
        ) == ScheduleAction::Finished(foreground),
        step_action(policy, Some(foreground), Some(background)) matches ScheduleAction::Finished(n)
            && n == foreground + background,
{
}

/// The processes are served in the order in which they were set up; where none was, each that has a
/// rule is served once, ordered by the bytes of their names.
pub proof fn processes_are_served_in_order(
    order: Seq<Seq<char>>,
    configured: Seq<Seq<char>>,
    rules: Rules,
    i: int,
    j: int,
)
    requires
        serves(order, configured, rules),
    ensures
        configured.len() > 0 ==> order == configured,
        configured.len() == 0 ==> forall|p: Seq<char>| #[trigger]
            order.contains(p) <==> rules.contains_key(p),
        configured.len() == 0 && 0 <= i < j < order.len() ==> order[i] != order[j] && path_lt(
            encode_utf8(order[i]),
            encode_utf8(order[j]),
        ),
{
    if configured.len() == 0 && 0 <= i < j < order.len() {
        path_lt_irreflexive(encode_utf8(order[i]));
    }
}

} // verus!
