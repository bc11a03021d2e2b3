//! The cycle scheduler: foreground steps, and background rounds over the sweeps' candidates.
use vstd::prelude::*;
use vstd::utf8::{decode_utf8, encode_utf8, valid_utf8};

use crate::bytes::{has_prefix, starts_with};
use crate::expr::{decode, exprs_view, read, Decoded, Expr, ExprTree, Reading};
use crate::paths::{
    compare_paths, copy_path, path_lt, path_lt_transitive, PathMap,
    PathOrder,
};
use crate::sweep::registry::{
    can_count, counted, joined_all, take_existing, taking_counts_every_candidate, waiting, AtomCandidate,
    Buffers, CandidateView, ProcessId, SweepController, SweepMetrics, WeightedAtomSweep,
};
use crate::table::{row_names, Table};
use crate::text::{bytes_eq, lemma_text_eq_bytes, str_eq, string_from_utf8};

verus! {

/// The name of a namespace.
#[derive(Clone, Debug, Eq, PartialEq, Hash)]
pub struct NamespaceId(pub String);

/// Expressions to run in the foreground.
pub struct ForegroundBatch {
    pub namespace: NamespaceId,
    pub operations: Vec<Expr>,
    pub atomic: bool,
}

/// Candidates to consume in the background.
pub struct BackgroundBatch {
    pub process_id: ProcessId,
    pub candidate_count: usize,
}

/// How foreground and background share the time.
#[derive(Clone, Copy, Debug, PartialEq, Eq, Structural)]
pub enum SchedulePolicy {
    /// A round after every foreground quantum.
    Fair { foreground_credits: usize, background_credits_per_process: usize },
    /// A round only when the foreground has nothing to do.
    ForegroundPriority { max_foreground_quantum: usize },
}

/// What the scheduler works on.
pub struct SweepSpace {
    pub btm: PathMap<u64>,
    pub was: WeightedAtomSweep,
    pub snapshot_version: u64,
}

pub struct CycleScheduler {
    pub policy: SchedulePolicy,
    pub background_credits: Table<usize>,
    pub background_rules: Table<Vec<u8>>,
    pub process_order: Vec<ProcessId>,
}

pub open spec fn ids_view(ids: Seq<ProcessId>) -> Seq<Seq<char>> {
    ids.map_values(|p: ProcessId| p.0@)
}

pub type Rules = Map<Seq<char>, Seq<u8>>;

pub open spec fn rules_view(t: Map<Seq<char>, Vec<u8>>) -> Rules {
    t.map_values(|rule: Vec<u8>| rule@)
}

/// The process that a rule names in its `(WAS process pattern)` source. The source is found by
/// structure: the first one, looking at a list before its items and not at heads of lists.
pub open spec fn was_process_of(t: ExprTree) -> Option<Seq<char>>
    decreases t, 0int,
{
    match t {
        ExprTree::List(items) => if is_source(items) {
            Some(decode_utf8(items[1]->Symbol_0))
        } else {
            was_process_among(items, 1)
        },
        _ => None,
    }
}

pub open spec fn is_source(items: Seq<ExprTree>) -> bool {
    &&& items.len() == 3
    &&& items[0] == ExprTree::Symbol(encode_utf8("WAS"@))
    &&& items[1] matches ExprTree::Symbol(id) && valid_utf8(id)
}

pub open spec fn was_process_among(items: Seq<ExprTree>, i: nat) -> Option<Seq<char>>
    decreases items, items.len() - i,
{
    if i >= items.len() {
        None
    } else {
        match was_process_of(items[i as int]) {
            Some(p) => Some(p),
            None => was_process_among(items, i + 1),
        }
    }
}

/// The process of the rule at a path.
pub open spec fn rule_process(path: Seq<u8>) -> Option<Seq<char>> {
    match read(path, 0) {
        Reading::Tree(t, _) => was_process_of(t),
        _ => None,
    }
}

/// The tag and head with which every rule starts: a list of four with the head `exec`.
pub open spec fn exec_prefix() -> Seq<u8> {
    seq![4, 0xC4, 101, 120, 101, 99]
}

/// The first rule of each process among the listed paths.
pub open spec fn rules_of(ps: Seq<Seq<u8>>) -> Rules
    decreases ps.len(),
{
    if ps.len() == 0 {
        Map::empty()
    } else {
        let m = rules_of(ps.drop_last());
        let p = ps.last();
        match rule_process(p) {
            Some(id) => if starts_with(p, exec_prefix()) && !m.contains_key(id) {
                m.insert(id, p)
            } else {
                m
            },
            None => m,
        }
    }
}

/// The process that an expression names in its `WAS` source.
fn was_process(e: &Expr) -> (r: Option<String>)
    ensures
        match r {
            Some(p) => was_process_of(e@) == Some(p@),
            None => was_process_of(e@) is None,
        },
    decreases e, 0int,
{
    match e {
        Expr::List(items) => {
            let ghost ts = exprs_view(items@);
            if items.len() == 3 {
                assert(ts[0] == items@[0]@);
                assert(ts[1] == items@[1]@);
                match (&items[0], &items[1]) {
                    (Expr::Symbol(head), Expr::Symbol(id)) => if bytes_eq(
                        head.as_slice(),
                        "WAS".as_bytes(),
                    ) {
                        assert(head@ == encode_utf8("WAS"@));
                        match string_from_utf8(id.as_slice()) {
                            Ok(name) => {
                                assert(is_source(ts));
                                return Some(name);
                            },
                            Err(_) => {},
                        }
                    },
                    _ => {},
                }
            }
            assert(!is_source(ts));
            if items.len() == 0 {
                return None;
            }
            was_among(items, 1)
        },
        _ => None,
    }
}

fn was_among(items: &Vec<Expr>, i: usize) -> (r: Option<String>)
    requires
        i <= items@.len(),
    ensures
        match r {
            Some(p) => was_process_among(exprs_view(items@), i as nat) == Some(p@),
            None => was_process_among(exprs_view(items@), i as nat) is None,
        },
    decreases items, items@.len() - i,
{
    if i >= items.len() {
        return None;
    }
    assert(exprs_view(items@)[i as int] == items@[i as int]@);
    match was_process(&items[i]) {
        Some(p) => Some(p),
        None => was_among(items, i + 1),
    }
}

/// Whether names are in order, by their bytes.
pub open spec fn names_ordered(names: Seq<Seq<char>>) -> bool {
    forall|i: int, j: int|
        0 <= i < j < names.len() ==> path_lt(
            encode_utf8(#[trigger] names[i]),
            encode_utf8(#[trigger] names[j]),
        )
}

/// Whether a list holds exactly the names of a map, in order.
pub open spec fn lists_names(names: Seq<Seq<char>>, rules: Rules) -> bool {
    &&& names_ordered(names)
    &&& forall|n: Seq<char>| #[trigger] names.contains(n) <==> rules.contains_key(n)
}

/// The processes in the order in which a round serves them: as configured, or those that have
/// rules, by name.
pub open spec fn serves(order: Seq<Seq<char>>, configured: Seq<Seq<char>>, rules: Rules) -> bool {
    if configured.len() > 0 {
        order == configured
    } else {
        lists_names(order, rules)
    }
}

/// What a round owes a process.
pub open spec fn credits_of(
    credits: Map<Seq<char>, usize>,
    policy: SchedulePolicy,
    process: Seq<char>,
) -> usize {
    if credits.contains_key(process) {
        credits[process]
    } else {
        match policy {
            SchedulePolicy::Fair { background_credits_per_process, .. } =>
                background_credits_per_process,
            SchedulePolicy::ForegroundPriority { .. } => 1,
        }
    }
}

/// The processes of an order that have rules, with what each is owed.
pub open spec fn slots_of(
    order: Seq<Seq<char>>,
    rules: Rules,
    credits: Map<Seq<char>, usize>,
    policy: SchedulePolicy,
) -> Seq<(Seq<char>, usize)>
    decreases order.len(),
{
    if order.len() == 0 {
        seq![]
    } else {
        let front = slots_of(order.drop_last(), rules, credits, policy);
        if rules.contains_key(order.last()) {
            front.push((order.last(), credits_of(credits, policy, order.last())))
        } else {
            front
        }
    }
}

/// What the scheduler does next in a step.
#[derive(Clone, Copy, Debug, PartialEq, Eq, Structural)]
pub enum ScheduleAction {
    /// Run so many foreground steps.
    Foreground(usize),
    /// Run a background round.
    Background,
    /// The step is over; so much work was done in it.
    Finished(usize),
}

/// A rule that has been taken out while it is interpreted.
pub struct Batch {
    pub rule: Vec<u8>,
    pub weight: u64,
}

impl CycleScheduler {
    pub open spec fn rules(&self) -> Rules {
        rules_view(self.background_rules@)
    }

    /// A scheduler without processes.
    pub fn new(policy: SchedulePolicy) -> (r: Self)
        ensures
            r.policy == policy,
            r.background_credits@ == Map::<Seq<char>, usize>::empty(),
            r.rules() == Map::<Seq<char>, Seq<u8>>::empty(),
            r.process_order@.len() == 0,
    {
        let r = CycleScheduler {
            policy,
            background_credits: Table::new(),
            background_rules: Table::new(),
            process_order: Vec::new(),
        };
        assert(r.rules() =~= Map::<Seq<char>, Seq<u8>>::empty());
        r
    }

    /// Sets what a round owes a process. A new process comes last in the order.
    pub fn configure_process(&mut self, process_id: ProcessId, credits: usize)
        ensures
            ids_view(final(self).process_order@) == if ids_view(old(self).process_order@).contains(
                process_id.0@,
            ) {
                ids_view(old(self).process_order@)
            } else {
                ids_view(old(self).process_order@).push(process_id.0@)
            },
            final(self).background_credits@ == old(self).background_credits@.insert(
                process_id.0@,
                credits,
            ),
            final(self).policy == old(self).policy,
            final(self).background_rules == old(self).background_rules,
    {
        let ghost ids = ids_view(self.process_order@);
        let mut found: bool = false;
        let mut i: usize = 0;
        while i < self.process_order.len() && !found
            invariant
                i <= self.process_order@.len(),
                *self == *old(self),
                ids == ids_view(self.process_order@),
                found ==> ids.contains(process_id.0@),
                !found ==> forall|k: int| 0 <= k < i ==> #[trigger] ids[k] != process_id.0@,
            decreases self.process_order@.len() - i + (if found { 0int } else { 1 }),
        {
            assert(ids[i as int] == self.process_order@[i as int].0@);
            if str_eq(self.process_order[i].0.as_str(), process_id.0.as_str()) {
                found = true;
            } else {
                i = i + 1;
            }
        }
        if !found {
            assert(!ids.contains(process_id.0@));
            let copy = ProcessId(process_id.0.as_str().to_owned());
            self.process_order.push(copy);
            assert(ids_view(self.process_order@) =~= ids.push(process_id.0@));
        }
        let _ = self.background_credits.insert(process_id.0, credits);
    }

    /// Finds the rules of the processes anew.
    pub fn index_background_rules(&mut self, btm: &PathMap<u64>)
        ensures
            final(self).rules() == rules_of(btm.paths()),
            *final(self) == (CycleScheduler {
                background_rules: final(self).background_rules,
                ..*old(self)
            }),
    {
        let mut rules: Table<Vec<u8>> = Table::new();
        let ghost ps = btm.paths();
        let prefix: [u8; 6] = [4, 0xC4, 101, 120, 101, 99];
        let mut i: usize = 0;
        proof {
            assert(rules_view(rules@) =~= rules_of(ps.take(0)));
            assert(prefix@ =~= exec_prefix());
        }
        while i < btm.val_count()
            invariant
                i <= ps.len(),
                ps == btm.paths(),
                prefix@ == exec_prefix(),
                rules_view(rules@) == rules_of(ps.take(i as int)),
            decreases ps.len() - i,
        {
            let (path, _) = btm.entry(i);
            let ghost before = rules_view(rules@);
            proof {
                assert(ps.take(i + 1).drop_last() =~= ps.take(i as int));
            }
            if has_prefix(path.as_slice(), &prefix) {
                match decode(path.as_slice(), 0) {
                    Decoded::Tree(e, _) => match was_process(&e) {
                        Some(id) => {
                            if !rules.contains(id.as_str()) {
                                let ghost name = id@;
                                let _ = rules.insert(id, copy_path(path));
                                assert(rules_view(rules@) =~= before.insert(name, path@));
                            }
                        },
                        None => {},
                    },
                    _ => {},
                }
            }
            i = i + 1;
        }
        assert(ps.take(i as int) =~= ps);
        self.background_rules = rules;
    }

    /// Takes the rule of a process out, to have it interpreted.
    pub fn execute_background_batch(&self, btm: &mut PathMap<u64>, pid: &ProcessId) -> (r: Option<
        Batch,
    >)
        ensures
            ({
                let rules = self.rules();
                let rule = rules[pid.0@];
                if rules.contains_key(pid.0@) && old(btm)@.contains_key(rule) {
                    (r matches Some(b) && b.rule@ == rule && b.weight == old(btm)@[rule])
                        && final(btm)@ == old(btm)@.remove(rule)
                } else {
                    r is None && final(btm)@ == old(btm)@
                }
            }),
    {
        match self.background_rules.get(pid.0.as_str()) {
            None => None,
            Some(rule) => match btm.remove(rule.as_slice()) {
                None => {
                    assert(btm@ =~= old(btm)@);
                    None
                },
                Some(weight) => Some(Batch { rule: copy_path(rule), weight }),
            },
        }
    }

    /// Plans a background round: finds the rules, lets the candidates that have arrived join the
    /// waiting ones, and lists the processes to serve.
    pub fn run_background_round(
        &mut self,
        space: &mut SweepSpace,
        received: &Vec<AtomCandidate>,
    ) -> (r: Round)
        ensures
            final(self).rules() == rules_of(old(space).btm.paths()),
            *final(self) == (CycleScheduler {
                background_rules: final(self).background_rules,
                ..*old(self)
            }),
            final(space).btm == old(space).btm,
            final(space).snapshot_version == old(space).snapshot_version,
            final(space).was.buffers() == joined_all(
                old(space).was.buffers(),
                crate::sweep::registry::candidate_views(received@),
            ),
            final(space).was.selected_candidates == old(space).was.selected_candidates,
            final(space).was.metrics == old(space).was.metrics,
            final(space).was.same_sweeps(&old(space).was),
            exists|order: Seq<Seq<char>>|
                serves(order, ids_view(old(self).process_order@), final(self).rules())
                    && r@ == (RoundView {
                    slots: #[trigger] slots_of(
                        order,
                        final(self).rules(),
                        old(self).background_credits@,
                        old(self).policy,
                    ),
                    at: 0,
                    used: 0,
                    work: 0,
                    running: false,
                }),
    {
        self.index_background_rules(&space.btm);
        space.was.buffer_candidates(received);
        let order: Vec<String> = if self.process_order.len() == 0 {
            names_in_order(&self.background_rules)
        } else {
            copy_ids(&self.process_order)
        };
        let ghost names = crate::transaction::texts_view(order@);
        let ghost rules = self.rules();
        let ghost credits = self.background_credits@;
        let default: usize = match self.policy {
            SchedulePolicy::Fair { background_credits_per_process, .. } =>
                background_credits_per_process,
            SchedulePolicy::ForegroundPriority { .. } => 1,
        };
        let mut slots: Vec<(ProcessId, usize)> = Vec::new();
        let mut i: usize = 0;
        assert(names.take(0) =~= seq![]);
        assert(slots_view(slots@) =~= slots_of(names.take(0), rules, credits, self.policy));
        while i < order.len()
            invariant
                i <= order@.len(),
                names == crate::transaction::texts_view(order@),
                rules == self.rules(),
                credits == self.background_credits@,
                default == match self.policy {
                    SchedulePolicy::Fair { background_credits_per_process, .. } =>
                        background_credits_per_process,
                    SchedulePolicy::ForegroundPriority { .. } => 1,
                },
                slots_view(slots@) == slots_of(names.take(i as int), rules, credits, self.policy),
            decreases order@.len() - i,
        {
            let ghost before = slots_view(slots@);
            proof {
                assert(names.take(i + 1).drop_last() =~= names.take(i as int));
                assert(names.take(i + 1).last() == order@[i as int]@);
            }
            if self.background_rules.contains(order[i].as_str()) {
                let owed: usize = match self.background_credits.get(order[i].as_str()) {
                    Some(c) => *c,
                    None => default,
                };
                slots.push((ProcessId(order[i].as_str().to_owned()), owed));
                assert(slots_view(slots@) =~= before.push((order@[i as int]@, owed)));
            }
            i = i + 1;
        }
        assert(names.take(i as int) =~= names);
        Round { slots, at: 0, used: 0, work: 0, running: None }
    }

    /// What to do next in a step, given how much foreground and background work was done in it, of
    /// each once it was.
    pub fn schedule_step(
        &self,
        foreground_done: Option<usize>,
        background_done: Option<usize>,
    ) -> (r: ScheduleAction)
        requires
            background_done is Some ==> foreground_done is Some && foreground_done->0
                + background_done->0 <= usize::MAX,
        ensures
            r == step_action(self.policy, foreground_done, background_done),
    {
        match foreground_done {
            None => match self.policy {
                SchedulePolicy::Fair { foreground_credits, .. } => ScheduleAction::Foreground(
                    foreground_credits,
                ),
                SchedulePolicy::ForegroundPriority { max_foreground_quantum } =>
                    ScheduleAction::Foreground(max_foreground_quantum),
            },
            Some(foreground) => match background_done {
                Some(background) => ScheduleAction::Finished(foreground + background),
                None => match self.policy {
                    SchedulePolicy::Fair { .. } => ScheduleAction::Background,
                    SchedulePolicy::ForegroundPriority { .. } => if foreground == 0 {
                        ScheduleAction::Background
                    } else {
                        ScheduleAction::Finished(foreground)
                    },
                },
            },
        }
    }
}

/// What comes next in a step under a policy.
pub open spec fn step_action(
    policy: SchedulePolicy,
    foreground_done: Option<usize>,
    background_done: Option<usize>,
) -> ScheduleAction {
    match (foreground_done, background_done) {
        (None, _) => match policy {
            SchedulePolicy::Fair { foreground_credits, .. } => ScheduleAction::Foreground(
                foreground_credits,
            ),
            SchedulePolicy::ForegroundPriority { max_foreground_quantum } =>
                ScheduleAction::Foreground(max_foreground_quantum),
        },
        (Some(foreground), Some(background)) => ScheduleAction::Finished(
            (foreground + background) as usize,
        ),
        (Some(foreground), None) => if policy is ForegroundPriority && foreground > 0 {
            ScheduleAction::Finished(foreground)
        } else {
            ScheduleAction::Background
        },
    }
}

/// How much work a whole step does, where its foreground would do `foreground` and a background
/// round would do `background`.
pub open spec fn step_work(policy: SchedulePolicy, foreground: usize, background: usize) -> int {
    match policy {
        SchedulePolicy::Fair { .. } => foreground + background,
        SchedulePolicy::ForegroundPriority { .. } => if foreground > 0 {
            foreground as int
        } else {
            background as int
        },
    }
}

/// A step first runs the foreground by what the policy grants it. Fair scheduling then always runs
/// one background round; foreground priority runs one only where the foreground did nothing. The
/// step returns the work of what it ran.
pub proof fn a_step_returns_its_work(
    policy: SchedulePolicy,
    foreground: usize,
    background: usize,
)
    requires
        foreground + background <= usize::MAX,
    ensures
        step_action(policy, None, None) == match policy {
            SchedulePolicy::Fair { foreground_credits, .. } => ScheduleAction::Foreground(
                foreground_credits,
            ),
            SchedulePolicy::ForegroundPriority { max_foreground_quantum } =>
                ScheduleAction::Foreground(max_foreground_quantum),
        },
        match step_action(policy, Some(foreground), None) {
            ScheduleAction::Foreground(_) => false,
            ScheduleAction::Background => (policy is Fair || foreground == 0) && step_action(
                policy,
                Some(foreground),
                Some(background),
            ) == ScheduleAction::Finished(step_work(policy, foreground, background) as usize),
            ScheduleAction::Finished(work) => policy is ForegroundPriority && foreground > 0 && work
                == step_work(policy, foreground, background),
        },
{
}

fn copy_ids(ids: &Vec<ProcessId>) -> (r: Vec<String>)
    ensures
        crate::transaction::texts_view(r@) == ids_view(ids@),
{
    let mut r: Vec<String> = Vec::new();
    let mut i: usize = 0;
    while i < ids.len()
        invariant
            i <= ids@.len(),
            crate::transaction::texts_view(r@) == ids_view(ids@).take(i as int),
        decreases ids@.len() - i,
    {
        let ghost before = crate::transaction::texts_view(r@);
        r.push(ids[i].0.as_str().to_owned());
        assert(crate::transaction::texts_view(r@) =~= before.push(ids@[i as int].0@));
        i = i + 1;
        assert(before.push(ids@[i - 1].0@) =~= ids_view(ids@).take(i as int));
    }
    assert(ids_view(ids@).take(i as int) =~= ids_view(ids@));
    r
}

/// The names of a table, in order.
fn names_in_order(t: &Table<Vec<u8>>) -> (r: Vec<String>)
    ensures
        lists_names(crate::transaction::texts_view(r@), rules_view(t@)),
{
    proof {
        use_type_invariant(t);
        t.lemma_rows();
    }
    let ghost rows = t.rows();
    let ghost all = row_names(rows);
    let mut r: Vec<String> = Vec::new();
    let mut i: usize = 0;
    let n = t.len();
    assert(crate::transaction::texts_view(r@) =~= seq![]);
    while i < n
        invariant
            i <= n == rows.len(),
            rows == t.rows(),
            all == row_names(rows),
            crate::table::distinct_names(rows),
            r@.len() == i,
            names_ordered(crate::transaction::texts_view(r@)),
            forall|x: Seq<char>| #[trigger]
                crate::transaction::texts_view(r@).contains(x) <==> all.take(i as int).contains(x),
        decreases rows.len() - i,
    {
        let row = t.row(i);
        let name: String = row.0.as_str().to_owned();
        let ghost before = crate::transaction::texts_view(r@);
        proof {
            assert(all[i as int] == name@);
            if before.contains(name@) {
                let k = all.take(i as int).index_of(name@);
                assert(all[k] == rows[k].0@);
            }
        }
        put_name(&mut r, name);
        i = i + 1;
        proof {
            assert(all.take(i as int) =~= all.take(i - 1).push(all[i - 1]));
            assert forall|x: Seq<char>| #[trigger]
                crate::transaction::texts_view(r@).contains(x) <==> all.take(i as int).contains(x) by {
                lemma_push_name(all.take(i - 1), all[i - 1], x);
                assert(before.contains(x) <==> all.take(i - 1).contains(x));
            }
        }
    }
    proof {
        assert(all.take(i as int) =~= all);
        assert forall|x: Seq<char>| #[trigger]
            crate::transaction::texts_view(r@).contains(x) <==> rules_view(t@).contains_key(x) by {
            assert(t@.contains_key(x) <==> all.contains(x));
        }
    }
    r
}

proof fn lemma_push_name(s: Seq<Seq<char>>, c: Seq<char>, x: Seq<char>)
    ensures
        s.push(c).contains(x) <==> s.contains(x) || x == c,
{
    if s.contains(x) {
        let k = s.index_of(x);
        assert(s.push(c)[k] == x);
    }
    if x == c {
        assert(s.push(c)[s.len() as int] == x);
    }
    if s.push(c).contains(x) && x != c {
        let k = s.push(c).index_of(x);
        assert(s[k] == x);
    }
}

/// Puts a name into its place.
fn put_name(names: &mut Vec<String>, name: String)
    requires
        names_ordered(crate::transaction::texts_view(old(names)@)),
        !crate::transaction::texts_view(old(names)@).contains(name@),
        old(names)@.len() < usize::MAX,
    ensures
        names_ordered(crate::transaction::texts_view(final(names)@)),
        final(names)@.len() == old(names)@.len() + 1,
        forall|x: Seq<char>| #[trigger]
            crate::transaction::texts_view(final(names)@).contains(x)
                <==> crate::transaction::texts_view(old(names)@).contains(x) || x == name@,
{
    let ghost before = crate::transaction::texts_view(names@);
    let ghost key = encode_utf8(name@);
    let mut i: usize = 0;
    let mut placed: bool = false;
    while i < names.len() && !placed
        invariant
            i <= names@.len(),
            before == crate::transaction::texts_view(names@),
            !before.contains(name@),
            key == encode_utf8(name@),
            forall|k: int| 0 <= k < i ==> path_lt(encode_utf8(#[trigger] before[k]), key),
            placed ==> i < names@.len() && path_lt(key, encode_utf8(before[i as int])),
        decreases names@.len() - i + (if placed { 0int } else { 1 }),
    {
        assert(before[i as int] == names@[i as int]@);
        match compare_paths(names[i].as_str().as_bytes(), name.as_str().as_bytes()) {
            PathOrder::Before => {
                i = i + 1;
            },
            PathOrder::After => {
                placed = true;
            },
            PathOrder::Same => {
                proof {
                    lemma_text_eq_bytes(before[i as int], name@);
                    assert(before.contains(before[i as int]));
                }
                placed = true;
            },
        }
    }
    proof {
        assert forall|k: int| i <= k < before.len() implies path_lt(
            key,
            encode_utf8(#[trigger] before[k]),
        ) by {
            if i < k {
                path_lt_transitive(key, encode_utf8(before[i as int]), encode_utf8(before[k]));
            }
        }
    }
    names.insert(i, name);
    proof {
        let after = crate::transaction::texts_view(names@);
        assert(after =~= before.insert(i as int, name@));
        assert forall|x: Seq<char>| #[trigger] after.contains(x) <==> before.contains(x) || x
            == name@ by {
            if before.contains(x) {
                let k = before.index_of(x);
                if k < i {
                    assert(after[k] == x);
                } else {
                    assert(after[k + 1] == x);
                }
            }
            if x == name@ {
                assert(after[i as int] == x);
            }
            if after.contains(x) && x != name@ {
                let k = after.index_of(x);
                if k < i {
                    assert(before[k] == x);
                } else {
                    assert(before[k - 1] == x);
                }
            }
        }
        assert forall|a: int, b: int| 0 <= a < b < after.len() implies path_lt(
            encode_utf8(#[trigger] after[a]),
            encode_utf8(#[trigger] after[b]),
        ) by {
            let x = if a < i { a } else { a - 1 };
            let y = if b < i { b } else { b - 1 };
            if a != i {
                assert(after[a] == before[x]);
            }
            if b != i {
                assert(after[b] == before[y]);
            }
        }
    }
}

/// Puts a rule back after it has been interpreted.
pub fn finish_background_batch(btm: &mut PathMap<u64>, batch: &Batch)
    ensures
        final(btm)@ == old(btm)@.insert(batch.rule@, batch.weight),
{
    let _ = btm.insert(batch.rule.as_slice(), batch.weight);
}

/// Rules persist: a rule that is taken out and put back is as it was, and so is all else that the
/// interpretation left alone.
pub proof fn rules_persist(m: Map<Seq<u8>, u64>, rule: Seq<u8>)
    requires
        m.contains_key(rule),
    ensures
        m.remove(rule).insert(rule, m[rule]) == m,
{
    assert(m.remove(rule).insert(rule, m[rule]) =~= m);
}

/// A background round: candidates are consumed process by process.
pub struct Round {
    slots: Vec<(ProcessId, usize)>,
    at: usize,
    used: usize,
    work: usize,
    running: Option<Batch>,
}

/// The mathematical value of a `Round`.
pub ghost struct RoundView {
    /// The processes to serve, with what each is owed.
    pub slots: Seq<(Seq<char>, usize)>,
    /// The process that is being served.
    pub at: int,
    /// What it has used up of what it is owed.
    pub used: int,
    /// The batches that are done.
    pub work: int,
    /// Whether a rule is being interpreted.
    pub running: bool,
}

pub open spec fn slots_view(slots: Seq<(ProcessId, usize)>) -> Seq<(Seq<char>, usize)> {
    slots.map_values(|s: (ProcessId, usize)| (s.0.0@, s.1))
}

/// What a round reads and changes.
pub ghost struct Stock {
    pub btm: Map<Seq<u8>, u64>,
    pub buffers: Buffers,
    pub selected: Map<Seq<char>, CandidateView>,
    pub metrics: SweepMetrics,
}

impl SweepSpace {
    pub open spec fn stock(&self) -> Stock {
        Stock {
            btm: self.btm@,
            buffers: self.was.buffers(),
            selected: self.was.selected(),
            metrics: self.was.metrics,
        }
    }
}

/// What is left after a process has looked for a candidate.
pub open spec fn after_look(s: Stock, process: Seq<char>, version: u64) -> Stock {
    let t = take_existing(waiting(s.buffers, process), s.btm, version);
    Stock {
        buffers: if s.buffers.contains_key(process) {
            s.buffers.insert(process, t.rest)
        } else {
            s.buffers
        },
        selected: match t.found {
            Some(c) => s.selected.insert(process, c),
            None => s.selected,
        },
        metrics: counted(s.metrics, t),
        ..s
    }
}

/// A round up to its next batch or its end.
pub ghost struct Advance {
    pub round: RoundView,
    pub stock: Stock,
    /// The rule to interpret; `None` at the end of the round.
    pub rule: Option<Seq<u8>>,
}

/// How a round goes on: a process is served as long as it is owed something and finds a candidate.
/// Each candidate costs one credit and is reserved; the rule is then taken out and interpreted. A
/// rule that is not there any more costs the credit but is no work.
pub open spec fn advance(r: RoundView, s: Stock, rules: Rules, version: u64) -> Advance
    decreases r.slots.len() - r.at, (if 0 <= r.at < r.slots.len() {
        r.slots[r.at].1 - r.used
    } else {
        0
    }),
{
    if r.at < 0 || r.at >= r.slots.len() {
        Advance { round: r, stock: s, rule: None }
    } else {
        let (process, owed) = r.slots[r.at];
        let t = take_existing(waiting(s.buffers, process), s.btm, version);
        if r.used >= owed {
            advance(RoundView { at: r.at + 1, used: 0, ..r }, s, rules, version)
        } else if t.found is None {
            advance(
                RoundView { at: r.at + 1, used: 0, ..r },
                after_look(s, process, version),
                rules,
                version,
            )
        } else {
            let s1 = after_look(s, process, version);
            let r1 = RoundView { used: r.used + 1, ..r };
            if rules.contains_key(process) && s1.btm.contains_key(rules[process]) {
                Advance {
                    round: RoundView { running: true, ..r1 },
                    stock: Stock { btm: s1.btm.remove(rules[process]), ..s1 },
                    rule: Some(rules[process]),
                }
            } else {
                advance(r1, s1, rules, version)
            }
        }
    }
}

/// The candidates that wait for the processes from the `k`-th on.
pub open spec fn waiting_from(bs: Buffers, slots: Seq<(Seq<char>, usize)>, k: int) -> nat
    decreases slots.len() - k,
{
    if k < 0 || k >= slots.len() {
        0
    } else {
        waiting(bs, slots[k].0).len() + waiting_from(bs, slots, k + 1)
    }
}

proof fn lemma_waiting_shrinks(
    bs: Buffers,
    slots: Seq<(Seq<char>, usize)>,
    k: int,
    process: Seq<char>,
    rest: Seq<CandidateView>,
)
    requires
        bs.contains_key(process),
        rest.len() <= bs[process].len(),
        0 <= k,
    ensures
        waiting_from(bs.insert(process, rest), slots, k) <= waiting_from(bs, slots, k),
        k < slots.len() && slots[k].0 == process ==> waiting_from(
            bs.insert(process, rest),
            slots,
            k,
        ) + (bs[process].len() - rest.len()) <= waiting_from(bs, slots, k),
    decreases slots.len() - k,
{
    if k < slots.len() {
        lemma_waiting_shrinks(bs, slots, k + 1, process, rest);
    }
}

/// What is owed from the `k`-th process on.
pub open spec fn owed_from(slots: Seq<(Seq<char>, usize)>, k: int) -> nat
    decreases slots.len() - k,
{
    if k < 0 || k >= slots.len() {
        0
    } else {
        slots[k].1 as nat + owed_from(slots, k + 1)
    }
}

/// What a round can still do.
pub open spec fn budget(r: RoundView) -> int {
    if 0 <= r.at < r.slots.len() {
        r.slots[r.at].1 - r.used + owed_from(r.slots, r.at + 1)
    } else {
        0
    }
}

/// A round interprets no more rules than its processes are owed: every rule that it interprets
/// costs one credit of the process whose rule it is.
pub proof fn round_stays_within_credits(r: RoundView, s: Stock, rules: Rules, version: u64)
    requires
        0 <= r.at <= r.slots.len(),
        0 <= r.used,
        r.at < r.slots.len() ==> r.used <= r.slots[r.at].1,
    ensures
        ({
            let a = advance(r, s, rules, version);
            &&& a.round.slots == r.slots
            &&& r.at <= a.round.at <= r.slots.len()
            &&& 0 <= a.round.used
            &&& a.round.at < r.slots.len() ==> a.round.used <= r.slots[a.round.at].1
            &&& a.rule is None ==> a.round.at == r.slots.len()
            &&& a.rule is Some ==> a.round.at < r.slots.len() && rules.contains_key(
                r.slots[a.round.at].0,
            ) && a.rule == Some(rules[r.slots[a.round.at].0]) && budget(a.round) < budget(r)
            &&& budget(a.round) <= budget(r)
        }),
    decreases r.slots.len() - r.at, (if 0 <= r.at < r.slots.len() {
        r.slots[r.at].1 - r.used
    } else {
        0
    }),
{
    if r.at < r.slots.len() {
        let (process, owed) = r.slots[r.at];
        let t = take_existing(waiting(s.buffers, process), s.btm, version);
        let next = RoundView { at: r.at + 1, used: 0, ..r };
        assert(budget(next) <= owed_from(r.slots, r.at + 1));
        let s1 = after_look(s, process, version);
        if r.used >= owed {
            round_stays_within_credits(next, s, rules, version);
        } else if t.found is None {
            round_stays_within_credits(next, s1, rules, version);
        } else {
            let r1 = RoundView { used: r.used + 1, ..r };
            if !(rules.contains_key(process) && s1.btm.contains_key(rules[process])) {
                round_stays_within_credits(r1, s1, rules, version);
            }
        }
    }
}

/// What a round wants next.
pub enum RoundAction {
    /// Interpret a rule, and report when that is done.
    Interpret(Vec<u8>),
    /// The round is over; so many batches were done.
    Done(usize),
}

impl Round {
    pub closed spec fn view(&self) -> RoundView {
        RoundView {
            slots: slots_view(self.slots@),
            at: self.at as int,
            used: self.used as int,
            work: self.work as int,
            running: self.running is Some,
        }
    }

    /// The rule that is being interpreted, with its weight.
    pub closed spec fn batch(&self) -> Option<(Seq<u8>, u64)> {
        match self.running {
            Some(b) => Some((b.rule@, b.weight)),
            None => None,
        }
    }

    /// Goes on to the next rule to interpret. At the end of the round, work that was done is
    /// published as a new snapshot.
    pub fn next(&mut self, scheduler: &CycleScheduler, space: &mut SweepSpace) -> (r: RoundAction)
        requires
            !old(self)@.running,
            old(space).snapshot_version < u64::MAX,
            can_count(
                old(space).was.metrics,
                waiting_from(old(space).was.buffers(), old(self)@.slots, old(self)@.at),
            ),
        ensures
            ({
                let a = advance(
                    old(self)@,
                    old(space).stock(),
                    scheduler.rules(),
                    old(space).snapshot_version,
                );
                &&& final(self)@ == a.round
                &&& final(space).stock() == a.stock
                &&& match a.rule {
                    Some(rule) => (r matches RoundAction::Interpret(p) && p@ == rule) && final(
                        self).batch() == Some((rule, old(space).btm@[rule])) && final(
                        space).snapshot_version == old(space).snapshot_version && final(
                        space).was.same_sweeps(&old(space).was),
                    None => r == RoundAction::Done(a.round.work as usize) && final(
                        self).batch() is None && if a.round.work > 0 {
                        final(space).snapshot_version == old(space).snapshot_version + 1 && final(
                            space).was.controllers@ == old(space).was.controllers@.map_values(
                            |c: SweepController|
                                SweepController {
                                    latest: Some((old(space).snapshot_version + 1) as u64),
                                    ..c
                                },
                        ) && final(space).was.controllers.started() == old(
                            space).was.controllers.started() && final(space).was.processes == old(
                            space).was.processes && final(space).was.settings == old(
                            space).was.settings
                    } else {
                        final(space).snapshot_version == old(space).snapshot_version && final(
                            space).was.same_sweeps(&old(space).was)
                    },
                }
            }),
    {
        let ghost want = advance(
            self@,
            space.stock(),
            scheduler.rules(),
            space.snapshot_version,
        );
        let version = space.snapshot_version;
        loop
            invariant
                want == advance(self@, space.stock(), scheduler.rules(), version),
                want == advance(
                    old(self)@,
                    old(space).stock(),
                    scheduler.rules(),
                    old(space).snapshot_version,
                ),
                version == space.snapshot_version == old(space).snapshot_version,
                version < u64::MAX,
                !self@.running,
                self.running is None,
                space.was.same_sweeps(&old(space).was),
                space.btm@ == old(space).btm@,
                can_count(
                    space.was.metrics,
                    waiting_from(space.was.buffers(), self@.slots, self@.at),
                ),
            decreases
                    self@.slots.len() - self@.at,
                    (if 0 <= self@.at < self@.slots.len() {
                        self@.slots[self@.at].1 - self@.used
                    } else {
                        0
                    }),
        {
            let ghost r0 = self@;
            let ghost s0 = space.stock();
            if self.at >= self.slots.len() {
                if self.work > 0 {
                    space.snapshot_version = version + 1;
                    space.was.publish_snapshot(version + 1);
                }
                return RoundAction::Done(self.work);
            }
            let ghost process = self@.slots[self@.at].0;
            if self.used >= self.slots[self.at].1 {
                self.at = self.at + 1;
                self.used = 0;
                continue;
            }
            proof {
                let b = waiting(s0.buffers, process);
                taking_counts_every_candidate(b, s0.btm, version);
                if s0.buffers.contains_key(process) {
                    lemma_waiting_shrinks(
                        s0.buffers,
                        r0.slots,
                        r0.at,
                        process,
                        take_existing(b, s0.btm, version).rest,
                    );
                }
            }
            let found = space.was.select_existing_candidate(
                &self.slots[self.at].0,
                &space.btm,
                version,
            );
            assert(space.stock() == after_look(s0, process, version));
            if !found {
                self.at = self.at + 1;
                self.used = 0;
                continue;
            }
            self.used = self.used + 1;
            match scheduler.execute_background_batch(&mut space.btm, &self.slots[self.at].0) {
                None => {},
                Some(batch) => {
                    let rule = copy_path(&batch.rule);
                    self.running = Some(batch);
                    return RoundAction::Interpret(rule);
                },
            }
        }
    }

    /// The rule has been interpreted; it is put back, and counts as work.
    pub fn interpreted(&mut self, space: &mut SweepSpace)
        requires
            old(self).batch() is Some,
            old(self)@.work < usize::MAX,
        ensures
            final(self)@ == (RoundView { running: false, work: old(self)@.work + 1, ..old(self)@ }),
            final(self).batch() is None,
            final(space).btm@ == old(space).btm@.insert(
                (old(self).batch()->0).0,
                (old(self).batch()->0).1,
            ),
            final(space).was == old(space).was,
            final(space).snapshot_version == old(space).snapshot_version,
    {
        let mut taken: Option<Batch> = None;
        std::mem::swap(&mut taken, &mut self.running);
        match taken {
            Some(batch) => finish_background_batch(&mut space.btm, &batch),
            None => {},
        }
        self.work = self.work + 1;
    }
}

} // verus!
