use vimyc::ast::BinOp;
use vimyc::check::{check, reserved};
use vimyc::env::Predicate;
use vimyc::ir::IrExprKind;
use vimyc::types::Domain;
use vimyc::lexer::lex;
use vimyc::parser::parse;

/// Every message, whichever side of the split it landed on.
fn messages(src: &str) -> Vec<String> {
    let (tokens, ld) = lex(src);
    assert!(ld.is_empty(), "{ld:?}");
    let (ast, pd) = parse(&tokens);
    assert!(pd.is_empty(), "{pd:?}");
    match check(&ast) {
        Ok(c) => c.warnings.into_iter().map(|d| d.message).collect(),
        Err(d) => d.into_iter().map(|d| d.message).collect(),
    }
}

fn param_src(decls: &str, priority: &str, require: &str) -> String {
    format!(
        "{decls}rule r {{\n priority {priority}\n category economy\n do scout\n \
         require {require}\n}}\n"
    )
}

#[test]
fn ordering_needs_numbers() {
    let e = messages(
        "rule r {\n priority 1\n category economy\n do scout\n require base-under-attack < enemies-visible\n}\n",
    );
    assert_eq!(e.len(), 1, "{e:?}");
    assert!(e[0].contains("cannot order"), "{e:?}");
}

#[test]
fn equality_still_works_on_bools() {
    let e = messages(
        "rule r {\n priority 1\n category economy\n do scout\n require base-under-attack == enemies-visible\n}\n",
    );
    assert!(e.is_empty(), "{e:?}");
}

#[test]
fn severity_decides_what_lowers() {
    let shadowed = "rule high {\n priority 9\n category economy exclusive\n do scout\n \
                    require cash >= 1\n}\n\
                    rule low {\n priority 1\n category economy\n do scout\n \
                    require cash >= 1\n require has-role(barracks)\n}\n";
    let (t, _) = lex(shadowed);
    let (ast, pd) = parse(&t);
    assert!(pd.is_empty(), "{pd:?}");
    let checked = check(&ast).ok().expect("a warning must not stop lowering");
    assert_eq!(checked.ir.rules.len(), 2);

    let typo = "rule r {\n priority 1\n category economy\n do scout\n \
                require has-role(war-facotry)\n}\n";
    let (t, _) = lex(typo);
    let (ast, pd) = parse(&t);
    assert!(pd.is_empty(), "{pd:?}");
    let diags = check(&ast).err().expect("a typo must stop lowering");
    assert!(diags.iter().all(|d| d.is_error()), "{diags:?}");
}

#[test]
fn a_priority_cannot_read_game_state() {
    let e = messages(&param_src("", "cash", "cash >= 1"));
    assert_eq!(e.len(), 1, "{e:?}");
    assert!(e[0].contains("cannot read `cash`"), "{e:?}");

    let e = messages(&param_src("", "400 + role-count(barracks)", "cash >= 1"));
    assert!(e.iter().any(|m| m.contains("cannot read")), "{e:?}");
    let e = messages(&param_src("", "count(powr)", "cash >= 1"));
    assert!(e.iter().any(|m| m.contains("cannot read")), "{e:?}");
}

#[test]
fn a_priority_must_be_an_int() {
    let e = messages(&param_src(
        "param aggression: float\n",
        "lerpf(200.0, 400.0, aggression)",
        "cash >= 1",
    ));
    assert_eq!(e.len(), 1, "{e:?}");
    assert!(e[0].contains("expected int"), "{e:?}");
}

#[test]
fn a_priority_cannot_see_a_binding() {
    let src = "param aggression: float\n\
               rule r {\n priority n\n category economy\n do scout\n \
               let n = 400\n require cash >= 1\n}\n";
    let e = messages(src);
    assert!(e.iter().any(|m| m.contains("unknown name `n`")), "{e:?}");
}

#[test]
fn the_static_phase_does_not_leak_into_the_rule() {
    let e = messages(&param_src("", "200 + 200", "cash >= 1 and has-role(barracks)"));
    assert!(e.is_empty(), "{e:?}");
}

#[test]
fn a_parameter_cannot_take_a_reserved_name() {
    for (decl, want) in [
        ("param cash: int\n", "is a predicate"),
        ("param lerp: int\n", "is a builtin"),
        ("param powr: int\n", "is a building"),
    ] {
        let e = messages(&param_src(decl, "1", "cash >= 1"));
        assert!(e.iter().any(|m| m.contains(want)), "{decl}: {e:?}");
    }
}

#[test]
fn a_parameter_cannot_be_declared_twice() {
    let e = messages(&param_src("param aggression: float\nparam aggression: int\n", "1", "cash >= 1"));
    assert_eq!(e.len(), 1, "{e:?}");
    assert!(e[0].contains("declared twice"), "{e:?}");
}

#[test]
fn a_binding_cannot_shadow_a_parameter() {
    let src = "param aggression: float\n\
               rule r {\n priority 1\n category economy\n do scout\n \
               let aggression = 3\n require cash >= 1\n}\n";
    let e = messages(src);
    assert_eq!(e.len(), 1, "{e:?}");
    assert!(e[0].contains("is a parameter and cannot be rebound"), "{e:?}");
}

#[test]
fn a_parameter_carries_its_declared_type() {
    let src = "param size: float\n\
               rule r {\n priority 1\n category squad-form\n \
               do form-squad(naval-attack, Naval, size, Attack)\n \
               require cash >= 1\n}\n";
    let e = messages(src);
    assert_eq!(e.len(), 1, "{e:?}");
    assert!(e[0].contains("int"), "{e:?}");
}

#[test]
fn an_argument_cannot_read_game_state() {
    let e = messages(&param_src("", "1", "count(damaged-combat-units(cash)) > 0"));
    assert!(e.iter().any(|m| m.contains("an argument is fixed")), "{e:?}");

    let src = "rule r {\n priority 1\n category squad-form\n \
               do form-squad(ground-attack, Ground, cash, Attack)\n \
               require cash >= 1\n}\n";
    let e = messages(src);
    assert!(e.iter().any(|m| m.contains("an argument is fixed")), "{e:?}");

    let src = "rule r {\n priority 1\n category micro\n \
               do retreat-damaged-units(0.5)\n let t = 0.5\n \
               require count(damaged-combat-units(t)) > 0\n}\n";
    let e = messages(src);
    assert!(e.iter().any(|m| m.contains("unknown name `t`")), "{e:?}");
}

#[test]
fn an_argument_may_be_computed_from_a_doctrine() {
    let e = messages(&param_src(
        "param leash: float\n",
        "1",
        "count(overextended-squad-members(ground-attack, leash)) > 0",
    ));
    assert!(e.is_empty(), "{e:?}");

    let e = messages(&param_src("", "1", "count(damaged-combat-units(0.25 + 0.25)) > 0"));
    assert!(e.is_empty(), "{e:?}");
}

#[test]
fn a_def_is_checked_like_any_expression() {
    let src = "def reserve(cost: int) = cash >= cost\n\
               rule r {\n priority 1\n category economy\n do scout\n \
               require reserve(100)\n}\n";
    assert!(messages(src).is_empty(), "{:?}", messages(src));

    let bad = "def reserve(cost: int) = cash >= cost\n\
               rule r {\n priority 1\n category economy\n do scout\n \
               require reserve(100, 200)\n}\n";
    let e = messages(bad);
    assert!(e.iter().any(|m| m.contains("expects 1 argument")), "{e:?}");

    let numeric = "def half(x: float) = x / 2.0\n\
                   rule r {\n priority 1\n category economy\n do scout\n \
                   require half(1.0)\n}\n";
    let e = messages(numeric);
    assert!(e.iter().any(|m| m.contains("expected bool")), "{e:?}");
}

#[test]
fn a_def_cannot_take_a_reserved_or_repeated_name() {
    for (src, want) in [
        ("def cash(x: int) = x > 0\n", "is a predicate"),
        ("def lerp(x: int) = x > 0\n", "is a builtin"),
        ("def a(x: int) = x > 0\ndef a(y: int) = y > 1\n", "already declared"),
        ("param a: float\ndef a(x: int) = x > 0\n", "already declared"),
    ] {
        let full = format!(
            "{src}rule r {{\n priority 1\n category economy\n do scout\n \
             require cash >= 1\n}}\n"
        );
        let e = messages(&full);
        assert!(e.iter().any(|m| m.contains(want)), "{src}: {e:?}");
    }
}

#[test]
fn a_def_cannot_be_recursive() {
    let src = "def loop(x: int) = loop(x) and cash >= x\n\
               rule r {\n priority 1\n category economy\n do scout\n \
               require loop(1)\n}\n";
    let e = messages(src);
    assert!(e.iter().any(|m| m.contains("unknown predicate `loop`")), "{e:?}");
}

#[test]
fn typos_are_caught() {
    let e = messages(&param_src("", "1", "has-role(war-facotry)"));
    assert!(e.iter().any(|m| m.contains("unknown role")), "{e:?}");
    assert!(e.iter().any(|m| m.contains("did you mean `war-factory`")), "{e:?}");

    let e = messages(&param_src("", "1", "has-building(e1)"));
    assert!(e.iter().any(|m| m.contains("unknown building")), "{e:?}");

    let e = messages(&param_src("", "1", "nearest-enemy"));
    assert!(e.iter().any(|m| m.contains("optional")), "{e:?}");

    let e = messages(&param_src("", "1", "cash >= 300 and has-role(war-facotry)"));
    assert_eq!(e.len(), 1, "a single typo should report once: {e:?}");
}

#[test]
fn unknown_categories_and_actions_are_reported() {
    let e = messages("rule r {\n priority 1\n category ecomomy\n do scout\n require cash >= 1\n}\n");
    assert!(e.iter().any(|m| m.contains("ecomomy")), "{e:?}");
    let e = messages("rule r {\n priority 1\n category economy\n do scoot\n require cash >= 1\n}\n");
    assert!(e.iter().any(|m| m.contains("scoot")), "{e:?}");
}

#[test]
fn reserved_names_say_what_they_are() {
    assert!(reserved("cash").expect("cash is taken").contains("is a predicate"));
    assert!(reserved("lerp").expect("lerp is taken").contains("is a builtin"));
    assert!(reserved("powr").expect("powr is taken").contains("is a building"));
    assert!(reserved("my-own-name").is_none());
}

fn lowered(src: &str) -> vimyc::ir::Ir {
    let (tokens, ld) = lex(src);
    assert!(ld.is_empty(), "{ld:?}");
    let (ast, pd) = parse(&tokens);
    assert!(pd.is_empty(), "{pd:?}");
    match check(&ast) {
        Ok(c) => c.ir,
        Err(d) => panic!("{d:?}"),
    }
}

#[test]
fn a_def_is_inlined_at_its_call() {
    let ir = lowered(&param_src("def afford(c: int) = cash >= c\n", "1", "afford(300)"));
    match &ir.rules[0].requires[0].kind {
        IrExprKind::Binary(BinOp::GtEq, l, r) => {
            assert!(matches!(&l.kind, IrExprKind::Predicate(Predicate::Cash, a) if a.is_empty()));
            assert!(matches!(r.kind, IrExprKind::Int(300)));
        }
        other => panic!("expected the def's body, got {other:?}"),
    }
}

#[test]
fn count_of_a_building_becomes_building_count() {
    let ir = lowered(&param_src("", "1", "count(powr) > 1"));
    match &ir.rules[0].requires[0].kind {
        IrExprKind::Binary(_, l, _) => match &l.kind {
            IrExprKind::Predicate(Predicate::BuildingCount, a) => {
                assert_eq!(a.len(), 1);
                assert!(matches!(a[0].kind, IrExprKind::Member(Domain::BuildingType, _)));
            }
            other => panic!("expected building-count, got {other:?}"),
        },
        other => panic!("expected a comparison, got {other:?}"),
    }
}

#[test]
fn bindings_and_parameters_lower_to_their_slots() {
    let src = "param first: int\nparam second: int\nrule r {\n priority second\n category economy\n \
               do scout\n let a = cash\n let b = a\n require b > first\n}\n";
    let ir = lowered(src);
    let r = &ir.rules[0];
    assert!(matches!(r.priority.kind, IrExprKind::Param(1)));
    assert!(matches!(r.lets[1].kind, IrExprKind::Binding(0)));
    match &r.requires[0].kind {
        IrExprKind::Binary(_, l, rr) => {
            assert!(matches!(l.kind, IrExprKind::Binding(1)));
            assert!(matches!(rr.kind, IrExprKind::Param(0)));
        }
        other => panic!("expected a comparison, got {other:?}"),
    }
}

#[test]
fn diagnostics_come_in_the_order_the_rule_is_written() {
    let src = "rule r {\n priority cash\n category econ\n do scoot\n require true-thing\n}\n";
    let (tokens, ld) = lex(src);
    assert!(ld.is_empty(), "{ld:?}");
    let (ast, pd) = parse(&tokens);
    assert!(pd.is_empty(), "{pd:?}");
    let diags = check(&ast).err().expect("four mistakes");
    let said: Vec<(String, &str)> = diags
        .iter()
        .map(|d| (d.message.clone(), &src[d.span.start as usize..d.span.end as usize]))
        .collect();
    assert_eq!(said.len(), 4, "{said:?}");
    assert_eq!(
        said[0],
        (
            "a priority is fixed when the doctrine lands, so it cannot read `cash`".to_string(),
            "cash"
        )
    );
    assert!(said[1].0.starts_with("unknown name `true-thing`"), "{said:?}");
    assert_eq!(said[1].1, "true-thing");
    assert_eq!(said[2], ("unknown category `econ`".to_string(), "econ"));
    assert_eq!(said[3], ("unknown action `scoot` (did you mean `scout`?)".to_string(), "scoot"));
}
