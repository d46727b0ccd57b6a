use vimyc::ast::{BinOp, UnOp};
use vimyc::check::check;
use vimyc::env::Predicate;
use vimyc::eval::{binary, evaluate, firing_order, reading, select, unary, Reading, Value};
use vimyc::ir::{Ir, IrExpr, IrExprKind};
use vimyc::lexer::lex;
use vimyc::parser::parse;
use vimyc::state::call_key;

fn compile(src: &str) -> Ir {
    let (t, ld) = lex(src);
    assert!(ld.is_empty(), "{ld:?}");
    let (a, d) = parse(&t);
    assert!(d.is_empty(), "{d:?}");
    check(&a).ok().expect("checks").ir
}

fn rule(req: &str) -> Ir {
    compile(&format!("rule r {{\n priority 1\n category economy\n do scout\n require {req}\n}}\n"))
}

/// An integer-only walk over a condition, with `cash` answered by the test.
fn value(e: &IrExpr, cash: i64) -> Value {
    match &e.kind {
        IrExprKind::Int(n) => Value::Int(*n),
        IrExprKind::Bool(b) => Value::Bool(*b),
        IrExprKind::Predicate(Predicate::Cash, _) => Value::Int(cash),
        IrExprKind::Unary(op, x) => unary(*op, value(x, cash)).expect("defined"),
        IrExprKind::Binary(op, l, r) => binary(*op, value(l, cash), value(r, cash)).expect("defined"),
        other => panic!("not in this test's fragment: {other:?}"),
    }
}

fn priority(e: &IrExpr) -> i64 {
    match value(e, 0) {
        Value::Int(n) => n,
        other => panic!("priority {other:?}"),
    }
}

fn fired(ir: &Ir, cash: i64) -> Vec<String> {
    let priorities: Vec<i64> = ir.rules.iter().map(|r| priority(&r.priority)).collect();
    let fires: Vec<bool> = ir
        .rules
        .iter()
        .map(|r| r.requires.iter().all(|c| value(c, cash) == Value::Bool(true)))
        .collect();
    evaluate(ir, &priorities, &fires).fired.into_iter().map(|i| ir.rules[i].name.clone()).collect()
}

#[test]
fn arithmetic_never_panics_on_a_source_file() {
    // Division by zero used to panic here.
    assert!(fired(&rule("cash / 0 > 1"), 10).is_empty());
    // Saturating rather than overflowing, and identical in debug and release.
    assert_eq!(fired(&rule("cash * cash > 0"), 9223372036854775807), vec!["r"]);
}

/// f64 cannot tell 2^53 from 2^53 + 1, and the engine compares int64s.
#[test]
fn large_integers_compare_exactly() {
    let cases = [
        ("9007199254740992 == 9007199254740993", false),
        ("9007199254740992 != 9007199254740993", true),
        ("9007199254740992 < 9007199254740993", true),
        ("9007199254740993 <= 9007199254740992", false),
    ];
    for (require, want) in cases {
        let fired = !fired(&rule(require), 0).is_empty();
        assert_eq!(fired, want, "{require}");
    }
}

#[test]
fn negating_the_smallest_integer_saturates() {
    assert_eq!(fired(&rule("-(-9223372036854775807 - 1) > 0"), 0), vec!["r"]);
}

/// A predicate call is keyed by its arguments, and a doctrine's number has to
/// reach that key as the number rather than as the parameter.
#[test]
fn a_parameterised_argument_keys_the_call() {
    let ir = compile(
        "param leash: float\n\
         rule r {\n priority 1\n category micro\n \
         do recall-overextended(ground-attack, leash)\n \
         require count(overextended-squad-members(ground-attack, leash)) > 0\n}\n",
    );
    let (id, args) = match &ir.rules[0].requires[0].kind {
        IrExprKind::Binary(BinOp::Gt, l, _) => match &l.kind {
            IrExprKind::Predicate(id, args) => (*id, args),
            other => panic!("{other:?}"),
        },
        other => panic!("{other:?}"),
    };
    assert_eq!(id, Predicate::OverextendedSquadMembers);
    assert_eq!(reading(id), Reading::Collection);
    assert!(matches!(args[1].kind, IrExprKind::Param(0)));
    // The doctrine's 0.36 reaches the key as the number.
    let key = call_key(id.name(), &["ground-attack".to_string(), format!("{}", 0.36_f64)]);
    assert_eq!(key, "overextended-squad-members(ground-attack,0.36)");
}

#[test]
fn integer_arithmetic_saturates_at_both_ends() {
    let max = Value::Int(i64::MAX);
    let min = Value::Int(i64::MIN);
    assert_eq!(binary(BinOp::Add, max, Value::Int(1)), Some(max));
    assert_eq!(binary(BinOp::Sub, min, Value::Int(1)), Some(min));
    assert_eq!(binary(BinOp::Mul, min, Value::Int(2)), Some(min));
    assert_eq!(binary(BinOp::Mul, min, Value::Int(-1)), Some(max));
    assert_eq!(binary(BinOp::Add, Value::Int(2), Value::Int(3)), Some(Value::Int(5)));
    assert_eq!(binary(BinOp::Mul, Value::Int(-4), Value::Int(3)), Some(Value::Int(-12)));
}

#[test]
fn division_truncates_and_never_traps() {
    assert_eq!(binary(BinOp::Div, Value::Int(7), Value::Int(2)), Some(Value::Int(3)));
    assert_eq!(binary(BinOp::Div, Value::Int(-7), Value::Int(2)), Some(Value::Int(-3)));
    assert_eq!(binary(BinOp::Div, Value::Int(7), Value::Int(-2)), Some(Value::Int(-3)));
    assert_eq!(binary(BinOp::Div, Value::Int(7), Value::Int(0)), Some(Value::Int(0)));
    assert_eq!(binary(BinOp::Div, Value::Int(i64::MIN), Value::Int(-1)), Some(Value::Int(0)));
}

#[test]
fn booleans_only_compare_for_equality() {
    let t = Value::Bool(true);
    let f = Value::Bool(false);
    assert_eq!(binary(BinOp::Eq, t, f), Some(f));
    assert_eq!(binary(BinOp::NotEq, t, f), Some(t));
    assert_eq!(binary(BinOp::Lt, t, f), None);
    assert_eq!(binary(BinOp::Add, Value::Int(1), t), None);
    assert_eq!(unary(UnOp::Not, t), Some(f));
    assert_eq!(unary(UnOp::Exists, Value::Opt(true)), Some(t));
    assert_eq!(unary(UnOp::Neg, Value::Int(i64::MIN)), Some(Value::Int(i64::MAX)));
    assert_eq!(unary(UnOp::Neg, t), None);
}

#[test]
fn each_predicate_reads_the_part_of_the_state_its_signature_names() {
    assert_eq!(reading(Predicate::Cash), Reading::Scalar);
    assert_eq!(reading(Predicate::BaseUnderAttack), Reading::Flag);
    assert_eq!(reading(Predicate::NearestEnemy), Reading::Presence);
    assert_eq!(reading(Predicate::BuildingCount), Reading::TypeCount);
    assert_eq!(reading(Predicate::HasUnit), Reading::TypeExists);
    assert_eq!(reading(Predicate::IdleHarvesters), Reading::Collection);
    assert_eq!(reading(Predicate::HasRole), Reading::CallBool);
    assert_eq!(reading(Predicate::RoleCount), Reading::CallInt);
    assert_eq!(reading(Predicate::SquadReadyRatio), Reading::CallFloat);
}

#[test]
fn higher_priority_comes_first_and_ties_keep_source_order() {
    assert_eq!(firing_order(&vec![5, 9, 5, 1, 9]), vec![1, 4, 0, 2, 3]);
    assert!(firing_order(&vec![]).is_empty());
}

const THREE: &str = "rule first {\n priority 300\n category economy exclusive\n do scout\n require cash >= 1\n}\n\
                     rule second {\n priority 200\n category economy\n do scout\n require cash >= 1\n}\n\
                     rule third {\n priority 100\n category combat\n do scout\n require cash >= 1\n}\n";

#[test]
fn an_exclusive_firing_claims_its_category() {
    let ir = compile(THREE);
    // `second` shares the claimed category and is skipped; `third` does not.
    assert_eq!(fired(&ir, 10), vec!["first", "third"]);
    // When the exclusive rule does not hold, the category stays open.
    let order = firing_order(&vec![300, 200, 100]);
    assert_eq!(select(&ir, &order, &vec![false, true, true]), vec![1, 2]);
}

#[test]
fn rules_without_an_exclusive_rival_all_fire() {
    let ir = compile(
        "rule a {\n priority 1\n category combat\n do scout\n require cash >= 1\n}\n\
         rule b {\n priority 2\n category combat\n do scout\n require cash >= 1\n}\n",
    );
    assert_eq!(fired(&ir, 10), vec!["b", "a"]);
}

#[test]
fn a_rule_whose_requirements_fail_does_not_fire() {
    let ir = compile(THREE);
    assert!(fired(&ir, 0).is_empty());
}
