//! Why a rule did not fire, counted over a recorded game.
//!
//! By the time a rule reaches the engine its condition is one flattened
//! conjunction, but `IrRule` still holds `requires` as separate expressions,
//! each with the span of the line an author wrote. So "this rule never fired"
//! can be turned into "and it was this `require`, on this line, that stopped
//! it".
//!
//! Three counts per rule, because they answer different questions:
//!
//! - `held` — the condition was satisfied. What the rule managed.
//! - `preempted` — an exclusive rule already claimed the category this tick,
//!   so the rule was never evaluated. Not the rule's fault; a contest it lost.
//! - per-clause `blocked` / `sole` — which requirement was false, and how
//!   often it was the *only* false one.
//!
//! `sole` is the actionable number: a clause that stands alone between a rule
//! and firing is exactly what to fix.
use crate::diag::Span;
use crate::emit::expr::{action_name_text, action_str, category_str, category_text};
use crate::eval::{category_of, firing_order, is_firing_order, lemma_claimed_exactly, precedes, run};
use crate::ir::{Ir, IrRule};
use vstd::prelude::*;
use std::collections::HashSet;
use vstd::string::*;

verus! {

/// One `require`, and how often it stood in the way.
#[derive(Debug)]
pub struct ClauseBlame {
    /// Position in the rule's `requires`, which is the order they were written.
    pub index: usize,
    /// States where this requirement was false.
    pub blocked: u64,
    /// States where it was the *only* false requirement — satisfy it and the
    /// rule fires.
    pub sole: u64,
    pub span: Span,
}

/// One rule's record over a run of states.
#[derive(Debug)]
pub struct RuleBlame {
    pub rule: String,
    /// The rule's category. A rule in a maintenance category that never fires
    /// is usually good news, and reading it as starved inverts the finding.
    pub category: String,
    /// What the rule does.
    pub action: String,
    /// States the rule was considered in — every state in the run.
    pub seen: u64,
    /// States where every requirement held.
    pub held: u64,
    /// States where an exclusive rule had already claimed the category, so
    /// this rule was never evaluated.
    pub preempted: u64,
    pub clauses: Vec<ClauseBlame>,
}

impl RuleBlame {
    /// The counts add up: a state is held, preempted or blocked, and a clause
    /// is solely to blame only where it blocked.
    pub open spec fn consistent(&self) -> bool {
        &&& self.held + self.preempted <= self.seen
        &&& forall|c: int|
            0 <= c < self.clauses@.len() ==> #[trigger] self.clauses@[c].sole <= self.clauses@[c].blocked
                <= self.seen - self.held - self.preempted
    }

    /// States where the rule was evaluated and something stopped it.
    pub fn blocked(&self) -> (n: u64)
        requires
            self.held + self.preempted <= self.seen,
        ensures
            n == self.seen - self.held - self.preempted,
    {
        self.seen - self.held - self.preempted
    }

    /// The clause worth acting on: the one most often solely responsible, the
    /// last of them on a tie.
    ///
    /// `None` when nothing was ever solely responsible, which means the rule
    /// is blocked by several requirements at once and no single fix frees it.
    pub fn culprit(&self) -> (c: Option<&ClauseBlame>)
        ensures
            match c {
                None => forall|j: int| 0 <= j < self.clauses@.len() ==> #[trigger] self.clauses@[j].sole == 0,
                Some(best) => exists|i: int|
                    {
                        &&& 0 <= i < self.clauses@.len()
                        &&& *best == #[trigger] self.clauses@[i]
                        &&& best.sole > 0
                        &&& forall|j: int| 0 <= j < self.clauses@.len() ==> #[trigger] self.clauses@[j].sole <= best.sole
                        &&& forall|j: int| i < j < self.clauses@.len() ==> #[trigger] self.clauses@[j].sole < best.sole
                    },
            },
    {
        let mut best: Option<usize> = None;
        let mut i: usize = 0;
        while i < self.clauses.len()
            invariant
                i <= self.clauses@.len(),
                match best {
                    None => forall|j: int| 0 <= j < i ==> #[trigger] self.clauses@[j].sole == 0,
                    Some(b) => {
                        &&& b < i
                        &&& self.clauses@[b as int].sole > 0
                        &&& forall|j: int| 0 <= j < i ==> #[trigger] self.clauses@[j].sole <= self.clauses@[b as int].sole
                        &&& forall|j: int| b < j < i ==> #[trigger] self.clauses@[j].sole < self.clauses@[b as int].sole
                    },
                },
            decreases self.clauses@.len() - i,
        {
            let sole = self.clauses[i].sole;
            if sole > 0 {
                match best {
                    None => {
                        best = Some(i);
                    },
                    Some(b) => {
                        if sole >= self.clauses[b].sole {
                            best = Some(i);
                        }
                    },
                }
            }
            i += 1;
        }
        match best {
            None => None,
            Some(b) => Some(&self.clauses[b]),
        }
    }
}

/// Every requirement holds.
pub open spec fn holds_all(h: Seq<bool>) -> bool {
    forall|c: int| 0 <= c < h.len() ==> #[trigger] h[c]
}

/// How many requirements are false.
pub open spec fn failing(h: Seq<bool>) -> nat
    decreases h.len(),
{
    if h.len() == 0 {
        0
    } else {
        failing(h.drop_last()) + if h.last() {
            0nat
        } else {
            1nat
        }
    }
}

/// Which rules fire in one state, given whether each of their requirements
/// holds there.
pub open spec fn fires_of(held: Seq<Vec<bool>>) -> Seq<bool> {
    held.map_values(|h: Vec<bool>| holds_all(h@))
}

/// Whether the rule at position `k` of `order` finds its category already
/// claimed in a state, so that it is never evaluated there.
pub open spec fn preempted_at(rules: Seq<IrRule>, order: Seq<usize>, held: Seq<Vec<bool>>, k: int) -> bool {
    run(rules, order, fires_of(held), k).0.contains(rules[order[k] as int].category.0)
}

/// A rule is preempted in a state exactly when an exclusive rule of its
/// category came before it in the order and fired there.
pub proof fn preempted_only_by_an_exclusive_rival(
    rules: Seq<IrRule>,
    order: Seq<usize>,
    held: Seq<Vec<bool>>,
    k: int,
)
    requires
        held.len() == rules.len(),
        forall|i: int| 0 <= i < order.len() ==> #[trigger] order[i] < rules.len(),
        0 <= k < order.len(),
    ensures
        preempted_at(rules, order, held, k) <==> exists|a: int|
            0 <= a < run(rules, order, fires_of(held), k).1.len() && rules[#[trigger] run(
                rules,
                order,
                fires_of(held),
                k,
            ).1[a] as int].exclusive && category_of(rules, run(rules, order, fires_of(held), k).1[a])
                == category_of(rules, order[k]),
{
    lemma_claimed_exactly(rules, order, fires_of(held), k);
    assert(run(rules, order, fires_of(held), k).0.contains(category_of(rules, order[k])) == preempted_at(
        rules,
        order,
        held,
        k,
    ));
}

/// How one state changes a rule's record.
pub open spec fn tallied(before: RuleBlame, after: RuleBlame, preempted: bool, h: Seq<bool>) -> bool {
    &&& after.rule == before.rule
    &&& after.category == before.category
    &&& after.action == before.action
    &&& after.seen == before.seen + 1
    &&& after.preempted == before.preempted + if preempted {
        1int
    } else {
        0int
    }
    &&& after.held == before.held + if !preempted && holds_all(h) {
        1int
    } else {
        0int
    }
    &&& after.clauses@.len() == before.clauses@.len()
    &&& forall|c: int|
        0 <= c < after.clauses@.len() ==> {
            &&& (#[trigger] after.clauses@[c]).index == before.clauses@[c].index
            &&& after.clauses@[c].span == before.clauses@[c].span
            &&& after.clauses@[c].blocked == before.clauses@[c].blocked + if !preempted && !h[c] {
                1int
            } else {
                0int
            }
            &&& after.clauses@[c].sole == before.clauses@[c].sole + if !preempted && !h[c] && failing(h) == 1 {
                1int
            } else {
                0int
            }
        }
}

proof fn lemma_failing(h: Seq<bool>)
    ensures
        failing(h) <= h.len(),
        failing(h) == 0 <==> holds_all(h),
        forall|c: int| 0 <= c < h.len() && !h[c] ==> failing(h) >= 1,
    decreases h.len(),
{
    if h.len() > 0 {
        let front = h.drop_last();
        lemma_failing(front);
        assert forall|c: int| 0 <= c < front.len() implies front[c] == h[c] by {}
        if holds_all(h) {
            assert(holds_all(front));
            assert(h[h.len() - 1]);
        }
        if failing(h) == 0 {
            assert forall|c: int| 0 <= c < h.len() implies #[trigger] h[c] by {
                if c < front.len() {
                    assert(front[c]);
                }
            }
        }
    }
}

fn count_failing(h: &Vec<bool>) -> (n: usize)
    ensures
        n == failing(h@),
{
    let mut n: usize = 0;
    let mut i: usize = 0;
    while i < h.len()
        invariant
            i <= h@.len(),
            n == failing(h@.take(i as int)),
            n <= i,
        decreases h@.len() - i,
    {
        assert(h@.take(i as int + 1).drop_last() =~= h@.take(i as int));
        if !h[i] {
            n += 1;
        }
        i += 1;
    }
    assert(h@.take(h@.len() as int) =~= h@);
    n
}

/// Counts one state into a rule's record.
fn tally(rec: &mut RuleBlame, preempted: bool, h: &Vec<bool>)
    requires
        old(rec).consistent(),
        old(rec).seen < u64::MAX,
        old(rec).clauses@.len() == h@.len(),
    ensures
        final(rec).consistent(),
        tallied(*old(rec), *final(rec), preempted, h@),
{
    proof {
        lemma_failing(h@);
    }
    let failing_now = count_failing(h);
    rec.seen = rec.seen + 1;
    if preempted {
        rec.preempted = rec.preempted + 1;
        return;
    }
    if failing_now == 0 {
        rec.held = rec.held + 1;
        return;
    }
    let ghost start = rec.clauses@;
    let mut c: usize = 0;
    while c < rec.clauses.len()
        invariant
            c <= rec.clauses@.len(),
            rec.clauses@.len() == start.len(),
            start.len() == h@.len(),
            failing_now == failing(h@),
            failing_now >= 1,
            failing_now <= h@.len(),
            rec.seen == old(rec).seen + 1,
            rec.held == old(rec).held,
            rec.preempted == old(rec).preempted,
            rec.rule == old(rec).rule,
            rec.category == old(rec).category,
            rec.action == old(rec).action,
            start == old(rec).clauses@,
            old(rec).consistent(),
            forall|j: int| c <= j < start.len() ==> #[trigger] rec.clauses@[j] == start[j],
            forall|j: int|
                0 <= j < c ==> {
                    &&& (#[trigger] rec.clauses@[j]).index == start[j].index
                    &&& rec.clauses@[j].span == start[j].span
                    &&& rec.clauses@[j].blocked == start[j].blocked + if !h@[j] {
                        1int
                    } else {
                        0int
                    }
                    &&& rec.clauses@[j].sole == start[j].sole + if !h@[j] && failing(h@) == 1 {
                        1int
                    } else {
                        0int
                    }
                },
        decreases start.len() - c,
    {
        if !h[c] {
            let one = failing_now == 1;
            let clause = &mut rec.clauses[c];
            assert(old(rec).clauses@[c as int].sole <= old(rec).clauses@[c as int].blocked);
            assert(clause.blocked <= old(rec).seen);
            clause.blocked = clause.blocked + 1;
            if one {
                clause.sole = clause.sole + 1;
            }
        }
        c += 1;
    }
}

/// A fresh record for each rule, before any state is counted.
pub fn blame_records(ir: &Ir) -> (out: Vec<RuleBlame>)
    ensures
        out@.len() == ir.rules@.len(),
        forall|r: int| 0 <= r < out@.len() ==> {
            let rec = #[trigger] out@[r];
            let rule = ir.rules@[r];
            &&& rec.rule@ == rule.name@
            &&& rec.category@ == category_text(rule.category.0)
            &&& rec.action@ == action_name_text(rule.action.id.0)
            &&& rec.seen == 0 && rec.held == 0 && rec.preempted == 0
            &&& rec.clauses@.len() == rule.requires@.len()
            &&& forall|c: int|
                0 <= c < rec.clauses@.len() ==> {
                    &&& (#[trigger] rec.clauses@[c]).index == c
                    &&& rec.clauses@[c].blocked == 0 && rec.clauses@[c].sole == 0
                    &&& rec.clauses@[c].span == rule.requires@[c].span
                }
        },
{
    let mut out: Vec<RuleBlame> = Vec::new();
    let mut r: usize = 0;
    while r < ir.rules.len()
        invariant
            r <= ir.rules@.len(),
            out@.len() == r,
            forall|q: int| 0 <= q < r ==> {
                let rec = #[trigger] out@[q];
                let rule = ir.rules@[q];
                &&& rec.rule@ == rule.name@
                &&& rec.category@ == category_text(rule.category.0)
                &&& rec.action@ == action_name_text(rule.action.id.0)
                &&& rec.seen == 0 && rec.held == 0 && rec.preempted == 0
                &&& rec.clauses@.len() == rule.requires@.len()
                &&& forall|c: int|
                    0 <= c < rec.clauses@.len() ==> {
                        &&& (#[trigger] rec.clauses@[c]).index == c
                        &&& rec.clauses@[c].blocked == 0 && rec.clauses@[c].sole == 0
                        &&& rec.clauses@[c].span == rule.requires@[c].span
                    }
            },
        decreases ir.rules@.len() - r,
    {
        let rule = &ir.rules[r];
        let mut clauses: Vec<ClauseBlame> = Vec::new();
        let mut c: usize = 0;
        while c < rule.requires.len()
            invariant
                c <= rule.requires@.len(),
                clauses@.len() == c,
                forall|j: int|
                    0 <= j < c ==> {
                        &&& (#[trigger] clauses@[j]).index == j
                        &&& clauses@[j].blocked == 0 && clauses@[j].sole == 0
                        &&& clauses@[j].span == rule.requires@[j].span
                    },
            decreases rule.requires@.len() - c,
        {
            clauses.push(ClauseBlame { index: c, blocked: 0, sole: 0, span: rule.requires[c].span });
            c += 1;
        }
        out.push(
            RuleBlame {
                rule: rule.name.clone(),
                category: String::from_str(category_str(rule.category.0)),
                action: String::from_str(action_str(rule.action.id.0)),
                seen: 0,
                held: 0,
                preempted: 0,
                clauses,
            },
        );
        r += 1;
    }
    out
}


/// Every entry names a different rule.
pub open spec fn distinct_rules(order: Seq<usize>, n: int) -> bool {
    &&& order.len() == n
    &&& forall|k: int| 0 <= k < order.len() ==> #[trigger] order[k] < n
    &&& forall|a: int, b: int| 0 <= a < b < order.len() ==> #[trigger] order[a] != #[trigger] order[b]
}

proof fn lemma_firing_order_distinct(p: Seq<i64>, order: Seq<usize>)
    requires
        is_firing_order(p, order),
    ensures
        distinct_rules(order, p.len() as int),
{
    assert forall|a: int, b: int| 0 <= a < b < order.len() implies #[trigger] order[a] != #[trigger] order[b] by {
        assert(precedes(p, order[a] as int, order[b] as int));
    }
}

/// Every rule's record is consistent and has room for one more state.
pub open spec fn records_ready(records: Seq<RuleBlame>, rules: Seq<IrRule>, held: Seq<Vec<bool>>) -> bool {
    &&& records.len() == rules.len()
    &&& held.len() == rules.len()
    &&& forall|r: int|
        0 <= r < records.len() ==> {
            &&& (#[trigger] records[r]).consistent()
            &&& records[r].seen < u64::MAX
            &&& records[r].clauses@.len() == held[r]@.len()
        }
}

/// Counts one state into every rule's record, applying category
/// exclusivity exactly as evaluation does.
fn record_state(records: &mut Vec<RuleBlame>, ir: &Ir, order: &Vec<usize>, held: &Vec<Vec<bool>>)
    requires
        records_ready(old(records)@, ir.rules@, held@),
        distinct_rules(order@, ir.rules@.len() as int),
    ensures
        final(records)@.len() == old(records)@.len(),
        forall|r: int| 0 <= r < final(records)@.len() ==> (#[trigger] final(records)@[r]).consistent(),
        forall|k: int|
            0 <= k < order@.len() ==> tallied(
                old(records)@[#[trigger] order@[k] as int],
                final(records)@[order@[k] as int],
                preempted_at(ir.rules@, order@, held@, k),
                held@[order@[k] as int]@,
            ),
{
    let ghost base = records@;
    broadcast use vstd::std_specs::hash::group_hash_axioms;

    let ghost fires = fires_of(held@);
    let mut claimed: HashSet<u32> = HashSet::new();
    let mut k: usize = 0;
    while k < order.len()
        invariant
            k <= order@.len(),
            records_ready(base, ir.rules@, held@),
            distinct_rules(order@, ir.rules@.len() as int),
            fires == fires_of(held@),
            records@.len() == base.len(),
            claimed@ == run(ir.rules@, order@, fires, k as int).0,
            forall|q: int|
                0 <= q < k ==> tallied(
                    base[#[trigger] order@[q] as int],
                    records@[order@[q] as int],
                    preempted_at(ir.rules@, order@, held@, q),
                    held@[order@[q] as int]@,
                ),
            forall|q: int|
                0 <= q < k ==> (#[trigger] records@[order@[q] as int]).consistent(),
            forall|q: int| k <= q < order@.len() ==> records@[#[trigger] order@[q] as int] == base[order@[q] as int],
        decreases order@.len() - k,
    {
        let i = order[k];
        let category = ir.rules[i].category.0;
        let ghost prev = run(ir.rules@, order@, fires, k as int);
        let ghost next = run(ir.rules@, order@, fires, k as int + 1);
        assert(fires[i as int] == holds_all(held@[i as int]@));
        assert(next == (if prev.0.contains(category) || !fires[i as int] {
            prev
        } else if ir.rules@[i as int].exclusive {
            (prev.0.insert(category), prev.1.push(i))
        } else {
            (prev.0, prev.1.push(i))
        }));
        let preempted = claimed.contains(&category);
        assert(preempted == preempted_at(ir.rules@, order@, held@, k as int));
        assert(records@[i as int] == base[i as int]);
        tally(&mut records[i], preempted, &held[i]);
        proof {
            lemma_failing(held@[i as int]@);
            assert forall|q: int| k < q < order@.len() implies records@[#[trigger] order@[q] as int] == base[
                order@[q] as int] by {
                assert(order@[q] != order@[k as int]);
            }
            assert forall|q: int| 0 <= q < k implies tallied(
                base[#[trigger] order@[q] as int],
                records@[order@[q] as int],
                preempted_at(ir.rules@, order@, held@, q),
                held@[order@[q] as int]@,
            ) && records@[order@[q] as int].consistent() by {
                assert(order@[q] != order@[k as int]);
            }
        }
        let fired = count_failing(&held[i]) == 0;
        if !preempted && fired && ir.rules[i].exclusive {
            claimed.insert(category);
        } else {
            assert(next.0 == prev.0);
        }
        k += 1;
    }
    proof {
        assert forall|r: int| 0 <= r < records@.len() implies (#[trigger] records@[r]).consistent() by {
            assert(order@.contains(r as usize)) by {
                lemma_permutation_covers(order@, ir.rules@.len() as int, r);
            }
            let q = choose|q: int| 0 <= q < order@.len() && order@[q] == r as usize;
            assert(records@[order@[q] as int].consistent());
        }
    }
}

/// `n` distinct entries below `n` name every index below `n`.
proof fn lemma_permutation_covers(order: Seq<usize>, n: int, r: int)
    requires
        distinct_rules(order, n),
        0 <= r < n,
    ensures
        order.contains(r as usize),
{
    if !order.contains(r as usize) {
        // The entries would be n distinct values among the n - 1 below n
        // other than r.
        let m = order.map_values(|x: usize| x as int);
        let s = m.to_set();
        let range = Set::new(|x: int| 0 <= x < n && x != r);
        assert(s.subset_of(range)) by {
            assert forall|x: int| s.contains(x) implies range.contains(x) by {
                let w = choose|w: int| 0 <= w < m.len() && m[w] == x;
                assert(order[w] < n);
                assert(order[w] != r as usize);
            }
        }
        assert(m.no_duplicates()) by {
            assert forall|a: int, b: int| 0 <= a < m.len() && 0 <= b < m.len() && a != b implies m[a] != m[b] by {
                if a < b {
                    assert(order[a] != order[b]);
                } else {
                    assert(order[b] != order[a]);
                }
            }
        }
        m.unique_seq_to_set();
        assert(range =~= vstd::set_lib::set_int_range(0, n).remove(r));
        vstd::set_lib::lemma_int_range(0, n);
        vstd::set_lib::lemma_len_subset(s, range);
        assert(false);
    }
}

/// States among the first `n` in which the rule at position `k` found its
/// category already claimed.
pub open spec fn times_preempted(rules: Seq<IrRule>, order: Seq<usize>, held: Seq<Vec<Vec<bool>>>, k: int, n: int) -> nat
    decreases n,
{
    if n <= 0 {
        0
    } else {
        times_preempted(rules, order, held, k, n - 1) + if preempted_at(rules, order, held[n - 1]@, k) {
            1nat
        } else {
            0nat
        }
    }
}

/// States among the first `n` in which the rule at position `k` was
/// evaluated and every requirement held.
pub open spec fn times_held(rules: Seq<IrRule>, order: Seq<usize>, held: Seq<Vec<Vec<bool>>>, k: int, n: int) -> nat
    decreases n,
{
    if n <= 0 {
        0
    } else {
        times_held(rules, order, held, k, n - 1) + if !preempted_at(rules, order, held[n - 1]@, k) && holds_all(
            held[n - 1]@[order[k] as int]@,
        ) {
            1nat
        } else {
            0nat
        }
    }
}

/// States among the first `n` in which requirement `c` of the rule at
/// position `k` was evaluated and false.
pub open spec fn times_blocked(
    rules: Seq<IrRule>,
    order: Seq<usize>,
    held: Seq<Vec<Vec<bool>>>,
    k: int,
    c: int,
    n: int,
) -> nat
    decreases n,
{
    if n <= 0 {
        0
    } else {
        times_blocked(rules, order, held, k, c, n - 1) + if !preempted_at(rules, order, held[n - 1]@, k)
            && !held[n - 1]@[order[k] as int]@[c] {
            1nat
        } else {
            0nat
        }
    }
}

/// States among the first `n` in which requirement `c` of the rule at
/// position `k` was the only false one.
pub open spec fn times_sole(
    rules: Seq<IrRule>,
    order: Seq<usize>,
    held: Seq<Vec<Vec<bool>>>,
    k: int,
    c: int,
    n: int,
) -> nat
    decreases n,
{
    if n <= 0 {
        0
    } else {
        times_sole(rules, order, held, k, c, n - 1) + if !preempted_at(rules, order, held[n - 1]@, k)
            && !held[n - 1]@[order[k] as int]@[c] && failing(held[n - 1]@[order[k] as int]@) == 1 {
            1nat
        } else {
            0nat
        }
    }
}

/// The shape a recorded run has: one entry per rule in every state, one
/// truth value per requirement.
pub open spec fn run_shape(rules: Seq<IrRule>, held: Seq<Vec<Vec<bool>>>) -> bool {
    forall|s: int|
        0 <= s < held.len() ==> {
            &&& (#[trigger] held[s])@.len() == rules.len()
            &&& forall|r: int| 0 <= r < rules.len() ==> (#[trigger] held[s]@[r])@.len() == rules[r].requires@.len()
        }
}

/// What the counts of every rule say after the first `n` states.
pub open spec fn counted(
    records: Seq<RuleBlame>,
    rules: Seq<IrRule>,
    order: Seq<usize>,
    held: Seq<Vec<Vec<bool>>>,
    n: int,
) -> bool {
    forall|k: int|
        0 <= k < order.len() ==> {
            let rec = #[trigger] records[order[k] as int];
            &&& rec.seen == n
            &&& rec.preempted == times_preempted(rules, order, held, k, n)
            &&& rec.held == times_held(rules, order, held, k, n)
            &&& forall|c: int|
                0 <= c < rec.clauses@.len() ==> {
                    &&& (#[trigger] rec.clauses@[c]).blocked == times_blocked(rules, order, held, k, c, n)
                    &&& rec.clauses@[c].sole == times_sole(rules, order, held, k, c, n)
                }
        }
}

/// Replays a rule set over recorded states and attributes every non-firing.
///
/// `held[s][r][c]` says whether requirement `c` of rule `r` holds in state
/// `s`. Category exclusivity is applied exactly as evaluation applies it, so
/// `preempted` means what it means at run time.
pub fn blame(ir: &Ir, priorities: &Vec<i64>, held: &Vec<Vec<Vec<bool>>>) -> (out: Vec<RuleBlame>)
    requires
        priorities@.len() == ir.rules@.len(),
        run_shape(ir.rules@, held@),
    ensures
        out@.len() == ir.rules@.len(),
        forall|r: int| 0 <= r < out@.len() ==> {
            let rec = #[trigger] out@[r];
            let rule = ir.rules@[r];
            &&& rec.rule@ == rule.name@
            &&& rec.category@ == category_text(rule.category.0)
            &&& rec.action@ == action_name_text(rule.action.id.0)
            &&& rec.consistent()
            &&& rec.clauses@.len() == rule.requires@.len()
            &&& forall|c: int|
                0 <= c < rec.clauses@.len() ==> {
                    &&& (#[trigger] rec.clauses@[c]).index == c
                    &&& rec.clauses@[c].span == rule.requires@[c].span
                }
        },
        exists|order: Seq<usize>|
            is_firing_order(priorities@, order) && counted(out@, ir.rules@, order, held@, held@.len() as int),
{
    let order = firing_order(priorities);
    proof {
        lemma_firing_order_distinct(priorities@, order@);
    }
    let mut records = blame_records(ir);
    let ghost init = records@;
    let mut s: usize = 0;
    while s < held.len()
        invariant
            s <= held@.len(),
            priorities@.len() == ir.rules@.len(),
            run_shape(ir.rules@, held@),
            is_firing_order(priorities@, order@),
            distinct_rules(order@, ir.rules@.len() as int),
            records@.len() == ir.rules@.len(),
            forall|r: int| 0 <= r < records@.len() ==> {
                let rec = #[trigger] records@[r];
                let rule = ir.rules@[r];
                &&& rec.rule@ == rule.name@
                &&& rec.category@ == category_text(rule.category.0)
                &&& rec.action@ == action_name_text(rule.action.id.0)
                &&& rec.consistent()
                &&& rec.seen == s
                &&& rec.clauses@.len() == rule.requires@.len()
                &&& forall|c: int|
                    0 <= c < rec.clauses@.len() ==> {
                        &&& (#[trigger] rec.clauses@[c]).index == c
                        &&& rec.clauses@[c].span == rule.requires@[c].span
                    }
            },
            counted(records@, ir.rules@, order@, held@, s as int),
        decreases held@.len() - s,
    {
        let ghost before = records@;
        proof {
            assert(held@[s as int]@.len() == ir.rules@.len());
            assert forall|r: int| 0 <= r < before.len() implies {
                &&& (#[trigger] before[r]).consistent()
                &&& before[r].seen < u64::MAX
                &&& before[r].clauses@.len() == held@[s as int]@[r]@.len()
            } by {
                assert(held@[s as int]@[r]@.len() == ir.rules@[r].requires@.len());
            }
        }
        record_state(&mut records, ir, &order, &held[s]);
        proof {
            assert forall|r: int| 0 <= r < records@.len() implies {
                let rec = #[trigger] records@[r];
                let rule = ir.rules@[r];
                &&& rec.rule@ == rule.name@
                &&& rec.category@ == category_text(rule.category.0)
                &&& rec.action@ == action_name_text(rule.action.id.0)
                &&& rec.consistent()
                &&& rec.seen == s + 1
                &&& rec.clauses@.len() == rule.requires@.len()
                &&& forall|c: int|
                    0 <= c < rec.clauses@.len() ==> {
                        &&& (#[trigger] rec.clauses@[c]).index == c
                        &&& rec.clauses@[c].span == rule.requires@[c].span
                    }
            } by {
                lemma_permutation_covers(order@, ir.rules@.len() as int, r);
                let q = choose|q: int| 0 <= q < order@.len() && order@[q] == r as usize;
                assert(tallied(before[r], records@[r], preempted_at(ir.rules@, order@, held@[s as int]@, q), held@[s as int]@[r]@));
            }
            assert forall|k: int| 0 <= k < order@.len() implies {
                let rec = #[trigger] records@[order@[k] as int];
                &&& rec.seen == s + 1
                &&& rec.preempted == times_preempted(ir.rules@, order@, held@, k, s + 1)
                &&& rec.held == times_held(ir.rules@, order@, held@, k, s + 1)
                &&& forall|c: int|
                    0 <= c < rec.clauses@.len() ==> {
                        &&& (#[trigger] rec.clauses@[c]).blocked == times_blocked(ir.rules@, order@, held@, k, c, s + 1)
                        &&& rec.clauses@[c].sole == times_sole(ir.rules@, order@, held@, k, c, s + 1)
                    }
            } by {
                let r = order@[k] as int;
                assert(tallied(before[r], records@[r], preempted_at(ir.rules@, order@, held@[s as int]@, k), held@[s as int]@[r]@));
                assert(before[order@[k] as int] == before[r]);
            }
        }
        s += 1;
    }
    assert(is_firing_order(priorities@, order@) && counted(records@, ir.rules@, order@, held@, held@.len() as int));
    records
}

} // verus!
