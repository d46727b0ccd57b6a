use vimyc::ast::BinOp;
use vimyc::check::check;
use vimyc::emit::{self, Artifact, Target};
use vimyc::ir::{Ir, IrExpr, IrExprKind};
use vimyc::lexer::lex;
use vimyc::parser::parse;
use vimyc::diag::Span;
use vimyc::specialise::{collect_gates, is_static, settle_gates, specialise};

fn compile(src: &str) -> Ir {
    let (tokens, ld) = lex(src);
    assert!(ld.is_empty(), "{ld:?}");
    let (ast, pd) = parse(&tokens);
    assert!(pd.is_empty(), "{pd:?}");
    check(&ast).ok().expect("checks").ir
}

/// The doctrine's numbers, applied to a comparison that reads only them.
fn number(e: &IrExpr, params: &[f64]) -> f64 {
    match &e.kind {
        IrExprKind::Int(n) => *n as f64,
        IrExprKind::Float(f) => f.parse().expect("a float literal"),
        IrExprKind::Param(slot) => params[*slot as usize],
        other => panic!("not a number: {other:?}"),
    }
}

fn decide(e: &IrExpr, params: &[f64]) -> bool {
    match &e.kind {
        IrExprKind::Binary(BinOp::And, l, r) => decide(l, params) && decide(r, params),
        IrExprKind::Binary(BinOp::Or, l, r) => decide(l, params) || decide(r, params),
        IrExprKind::Binary(BinOp::GtEq, l, r) => number(l, params) >= number(r, params),
        IrExprKind::Binary(BinOp::Gt, l, r) => number(l, params) > number(r, params),
        other => panic!("not a gate: {other:?}"),
    }
}

/// What the doctrine settles becomes a constant, then the pass applies it.
fn settle(ir: &mut Ir, params: &[f64]) {
    for rule in ir.rules.iter_mut() {
        for c in rule.requires.iter_mut() {
            if is_static(c) {
                let b = decide(c, params);
                *c = IrExpr { kind: IrExprKind::Bool(b), span: c.span };
            }
        }
    }
    specialise(ir);
}

fn rule_set() -> Ir {
    compile(
        "param naval-weight: float\n\
         rule gated {\n priority 100\n category combat\n \
         do squad-attack-move(naval-attack)\n \
         require naval-weight >= 0.3\n require map-has-water()\n}\n\
         rule gate-only {\n priority 90\n category squad-form\n \
         do squad-defend(naval-attack)\n require naval-weight >= 0.3\n}\n\
         rule ungated {\n priority 80\n category economy\n do scout\n \
         require cash >= 300\n}\n",
    )
}

fn with(weight: f64) -> Ir {
    let mut ir = rule_set();
    settle(&mut ir, &[weight]);
    ir
}

fn names(ir: &Ir) -> Vec<&str> {
    ir.rules.iter().map(|r| r.name.as_str()).collect()
}

#[test]
fn a_false_gate_removes_the_rule() {
    let ir = with(0.1);
    assert_eq!(names(&ir), vec!["ungated"]);
}

#[test]
fn a_true_gate_removes_only_itself() {
    let ir = with(0.4);
    assert_eq!(names(&ir), vec!["gated", "gate-only", "ungated"]);
    assert_eq!(ir.rules[0].requires.len(), 1);
    assert!(matches!(ir.rules[0].requires[0].kind, IrExprKind::Predicate(..)));
    assert_eq!(ir.rules[2].requires.len(), 1, "an ungated rule is untouched");
}

#[test]
fn a_rule_that_was_only_a_gate_survives_as_true() {
    let ir = with(0.4);
    let gate_only = ir.rules.iter().find(|r| r.name == "gate-only").unwrap();
    assert!(gate_only.requires.is_empty());

    assert!(emit::is_emittable(&ir));
    let Artifact::Expr(rules) = emit::emit(&ir, Target::Expr);
    let emitted = rules.iter().find(|r| r.name == "gate-only").unwrap();
    assert_eq!(emitted.condition, "true");
}

#[test]
fn a_compound_gate_folds() {
    let src = "param naval-weight: float\nparam aggression: float\n\
               rule both {\n priority 1\n category combat\n \
               do squad-defend(naval-attack)\n \
               require naval-weight >= 0.3 and aggression > 0.5\n \
               require squad-exists(naval-attack)\n}\n\
               rule either {\n priority 2\n category combat\n \
               do squad-attack-move(naval-attack)\n \
               require naval-weight >= 0.9 or aggression > 0.5\n \
               require squad-exists(naval-attack)\n}\n";
    for (naval, aggression, want) in [
        (0.4, 0.7, vec!["both", "either"]),
        (0.1, 0.7, vec!["either"]),
        (0.1, 0.2, Vec::new()),
    ] {
        let mut ir = compile(src);
        settle(&mut ir, &[naval, aggression]);
        assert_eq!(names(&ir), want, "naval {naval}, aggression {aggression}");
    }
}

#[test]
fn a_constant_is_absorbed_through_and_and_or() {
    // `floor <= 0 or role-count(pillbox) >= floor` with the floor at 0: the
    // gate side is true, so the whole conjunct is.
    let src = "param floor: int\n\
               rule r {\n priority 1\n category economy\n do scout\n \
               require floor <= 0 or role-count(pillbox) >= floor\n require cash >= 1\n}\n";
    let mut ir = compile(src);
    for rule in ir.rules.iter_mut() {
        if let IrExprKind::Binary(BinOp::Or, l, _) = &mut rule.requires[0].kind {
            let span = l.span;
            **l = IrExpr { kind: IrExprKind::Bool(true), span };
        }
    }
    specialise(&mut ir);
    assert_eq!(ir.rules.len(), 1);
    assert_eq!(ir.rules[0].requires.len(), 1, "the settled conjunct is gone");

    // A false gate leaves the comparison standing.
    let mut ir = compile(src);
    for rule in ir.rules.iter_mut() {
        if let IrExprKind::Binary(BinOp::Or, l, _) = &mut rule.requires[0].kind {
            let span = l.span;
            **l = IrExpr { kind: IrExprKind::Bool(false), span };
        }
    }
    specialise(&mut ir);
    assert_eq!(ir.rules[0].requires.len(), 2);
    assert!(matches!(ir.rules[0].requires[0].kind, IrExprKind::Binary(BinOp::GtEq, _, _)));
}

#[test]
fn nothing_settled_leaves_the_rule_set_alone() {
    let mut ir = compile(
        "rule a {\n priority 2\n category economy\n do scout\n require cash >= 1\n require has-role(radar)\n}\n\
         rule b {\n priority 1\n category combat\n do scout\n require is-rushed()\n}\n",
    );
    specialise(&mut ir);
    let shape: Vec<(&str, usize)> = ir.rules.iter().map(|r| (r.name.as_str(), r.requires.len())).collect();
    assert_eq!(shape, vec![("a", 2), ("b", 1)]);
}

#[test]
fn static_means_decidable_from_the_doctrine_alone() {
    let ir = compile(
        "param w: float\n\
         rule r {\n priority 1\n category economy\n do scout\n \
         let n = 3\n require w >= 0.3\n require cash >= 1\n require lerp(1, 2, w) > n\n}\n",
    );
    let r = &ir.rules[0];
    assert!(is_static(&r.requires[0]));
    assert!(!is_static(&r.requires[1]), "reads game state");
    assert!(!is_static(&r.requires[2]), "a binding is not static");
}

#[test]
fn gates_are_found_left_to_right_and_replaced_by_what_was_decided() {
    let span = Span { start: 0, end: 1 };
    let gate = IrExpr { kind: IrExprKind::Param(0), span };
    let reads_state = IrExpr { kind: IrExprKind::Binding(0), span };
    let whole_gate = IrExpr {
        kind: IrExprKind::Binary(
            BinOp::Lt,
            Box::new(IrExpr { kind: IrExprKind::Param(1), span }),
            Box::new(IrExpr { kind: IrExprKind::Int(3), span }),
        ),
        span,
    };
    let e = IrExpr {
        kind: IrExprKind::Binary(
            BinOp::Or,
            Box::new(IrExpr { kind: IrExprKind::Binary(BinOp::And, Box::new(gate), Box::new(reads_state)), span }),
            Box::new(whole_gate),
        ),
        span,
    };
    let mut gates = Vec::new();
    collect_gates(&e, &mut gates);
    assert_eq!(gates.len(), 2);
    assert!(matches!(gates[0].kind, IrExprKind::Param(0)));
    assert!(matches!(gates[1].kind, IrExprKind::Binary(BinOp::Lt, _, _)));
    let settled = settle_gates(e, &vec![false, true]);
    match settled.kind {
        IrExprKind::Binary(BinOp::Or, l, r) => {
            match l.kind {
                IrExprKind::Binary(BinOp::And, a, b) => {
                    assert!(matches!(a.kind, IrExprKind::Bool(false)));
                    assert!(matches!(b.kind, IrExprKind::Binding(0)));
                }
                other => panic!("expected `and`, got {other:?}"),
            }
            assert!(matches!(r.kind, IrExprKind::Bool(true)));
        }
        other => panic!("expected `or`, got {other:?}"),
    }
}
