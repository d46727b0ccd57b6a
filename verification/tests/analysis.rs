use vimyc::analysis::{blame, RuleBlame};
use vimyc::check::check;
use vimyc::ir::Ir;
use vimyc::unit::Unit;

fn ir_of(src: &str) -> Ir {
    let u = Unit::parse(vec![("t.vy".to_string(), src.to_string())]);
    assert!(u.diags.is_empty(), "{:?}", u.diags);
    check(&u.ast).ok().expect("checks").ir
}

/// Priorities as written, one per rule, for rule sets with literal ones.
fn literal_priorities(ir: &Ir) -> Vec<i64> {
    ir.rules
        .iter()
        .map(|r| match r.priority.kind {
            vimyc::ir::IrExprKind::Int(n) => n,
            _ => panic!("not a literal priority"),
        })
        .collect()
}

/// Whether each requirement of each rule held, state by state.
fn run(ir: &Ir, held: Vec<Vec<Vec<bool>>>) -> Vec<RuleBlame> {
    blame(ir, &literal_priorities(ir), &held)
}

/// Two requirements, one false: that one is solely responsible.
#[test]
fn a_single_failing_clause_is_sole() {
    let ir = ir_of(
        "rule r {\n priority 1\n category economy\n do scout\n \
         require cash >= 500\n require power-excess >= 0\n}\n",
    );
    // {"scalars":{"cash":100,"power-excess":50}}
    let out = run(&ir, vec![vec![vec![false, true]]]);
    let b = &out[0];
    assert_eq!(b.held, 0);
    assert_eq!(b.clauses[0].blocked, 1);
    assert_eq!(b.clauses[0].sole, 1);
    assert_eq!(b.clauses[1].blocked, 0);
    assert_eq!(b.culprit().map(|c| c.index), Some(0));
}

/// Two failing at once: neither is solely responsible.
#[test]
fn two_failing_clauses_leave_no_culprit() {
    let ir = ir_of(
        "rule r {\n priority 1\n category economy\n do scout\n \
         require cash >= 500\n require power-excess >= 0\n}\n",
    );
    // {"scalars":{"cash":100,"power-excess":-20}}
    let out = run(&ir, vec![vec![vec![false, false]]]);
    let b = &out[0];
    assert_eq!(b.clauses[0].blocked, 1);
    assert_eq!(b.clauses[1].blocked, 1);
    assert_eq!(b.clauses[0].sole, 0);
    assert_eq!(b.clauses[1].sole, 0);
    assert!(b.culprit().is_none(), "no single fix frees this rule");
}

#[test]
fn a_satisfied_rule_is_held_and_blames_nothing() {
    let ir = ir_of("rule r {\n priority 1\n category economy\n do scout\n require cash >= 50\n}\n");
    // {"scalars":{"cash":100}}
    let out = run(&ir, vec![vec![vec![true]]]);
    let b = &out[0];
    assert_eq!(b.held, 1);
    assert_eq!(b.blocked(), 0);
    assert_eq!(b.clauses[0].blocked, 0);
}

/// An exclusive rule that fires takes the category, and the rule below it is
/// recorded as preempted rather than blamed for a condition never evaluated.
#[test]
fn a_preempted_rule_is_not_blamed() {
    let ir = ir_of(
        "rule winner {\n priority 900\n category economy exclusive\n do scout\n \
         require cash >= 50\n}\n\
         rule loser {\n priority 100\n category economy exclusive\n do scout\n \
         require cash >= 999999\n}\n",
    );
    // {"scalars":{"cash":100}}
    let out = run(&ir, vec![vec![vec![true], vec![false]]]);
    let loser = out.iter().find(|b| b.rule == "loser").expect("loser");
    assert_eq!(loser.preempted, 1);
    assert_eq!(loser.held, 0);
    assert_eq!(loser.blocked(), 0, "preempted is not blocked");
    assert_eq!(loser.clauses[0].blocked, 0, "a condition that was never evaluated cannot be the culprit");
}

#[test]
fn counts_accumulate_across_states() {
    let ir = ir_of("rule r {\n priority 1\n category economy\n do scout\n require cash >= 500\n}\n");
    // cash 100, 100, 900, 100
    let states = [100, 100, 900, 100].iter().map(|c| vec![vec![*c >= 500]]).collect();
    let out = run(&ir, states);
    let b = &out[0];
    assert_eq!(b.seen, 4);
    assert_eq!(b.held, 1);
    assert_eq!(b.clauses[0].sole, 3);
}

#[test]
fn every_state_is_held_preempted_or_blocked() {
    let ir = ir_of(
        "rule top {\n priority 9\n category economy exclusive\n do scout\n require cash >= 1\n}\n\
         rule mid {\n priority 5\n category economy\n do scout\n require cash >= 2\n require is-rushed()\n}\n",
    );
    let states = vec![
        vec![vec![true], vec![true, true]],
        vec![vec![false], vec![true, true]],
        vec![vec![false], vec![false, true]],
        vec![vec![false], vec![false, false]],
    ];
    let out = run(&ir, states);
    let mid = &out[1];
    assert_eq!(mid.seen, 4);
    assert_eq!((mid.preempted, mid.held, mid.blocked()), (1, 1, 2));
    assert_eq!(mid.seen, mid.held + mid.preempted + mid.blocked());
    assert_eq!((mid.clauses[0].blocked, mid.clauses[0].sole), (2, 1));
    assert_eq!((mid.clauses[1].blocked, mid.clauses[1].sole), (1, 0));
    assert_eq!(mid.category, "economy");
    assert_eq!(mid.action, "scout");
}

#[test]
fn the_culprit_is_the_most_often_sole_clause_and_the_last_on_a_tie() {
    let ir = ir_of(
        "rule r {\n priority 1\n category economy\n do scout\n \
         require cash >= 1\n require is-rushed()\n require has-role(radar)\n}\n",
    );
    let out = run(
        &ir,
        vec![
            vec![vec![false, true, true]],
            vec![vec![true, true, false]],
            vec![vec![true, false, true]],
        ],
    );
    // Each clause was solely to blame once; the last of them is reported.
    assert_eq!(out[0].culprit().map(|c| c.index), Some(2));
    let out = run(&ir, vec![vec![vec![false, true, true]], vec![vec![false, true, true]], vec![vec![true, true, false]]]);
    assert_eq!(out[0].culprit().map(|c| c.index), Some(0));
}
