use vimyc::check::check;
use vimyc::emit::expr::{go_name, operator, pascal_case, precedence, wire_member};
use vimyc::emit::vy;
use vimyc::emit::{self, Artifact, Target};
use vimyc::ast::BinOp;
use vimyc::env::member_index;
use vimyc::ir::Ir;
use vimyc::lexer::lex;
use vimyc::parser::parse;
use vimyc::types::Domain;

fn compile(src: &str) -> Ir {
    let (tokens, ld) = lex(src);
    assert!(ld.is_empty(), "{ld:?}");
    let (ast, pd) = parse(&tokens);
    assert!(pd.is_empty(), "{pd:?}");
    check(&ast).ok().expect("checks").ir
}

fn condition(require: &str) -> String {
    let ir = compile(&format!(
        "rule r {{\n priority 1\n category economy\n do scout\n require {require}\n}}\n"
    ));
    assert!(emit::is_emittable(&ir));
    let Artifact::Expr(rules) = emit::emit(&ir, Target::Expr);
    rules[0].condition.clone()
}

#[test]
fn emits_the_parentheses_precedence_needs() {
    for (src, want) in [
        (
            "has-role(barracks) and (has-role(radar) or is-rushed())",
            "HasRole(\"barracks\") && (HasRole(\"radar\") || IsRushed())",
        ),
        (
            "has-role(barracks) or has-role(radar) and is-rushed()",
            "(HasRole(\"barracks\") || HasRole(\"radar\") && IsRushed())",
        ),
        ("count(powr) + count(proc) < 7", "BuildingCount(\"powr\") + BuildingCount(\"proc\") < 7"),
        ("cash() * (count(powr) + 1) > 100", "Cash() * (BuildingCount(\"powr\") + 1) > 100"),
        ("cash() - (count(powr) - 1) > 0", "Cash() - (BuildingCount(\"powr\") - 1) > 0"),
        (
            "not (has-role(barracks) and has-role(radar))",
            "!(HasRole(\"barracks\") && HasRole(\"radar\"))",
        ),
    ] {
        assert_eq!(condition(src), want, "emitting `{src}`");
    }
}

#[test]
fn an_optional_is_compared_against_nil() {
    assert_eq!(condition("exists nearest-enemy"), "NearestEnemy() != nil");
    assert_eq!(
        condition("exists nearest-enemy and is-rushed()"),
        "NearestEnemy() != nil && IsRushed()"
    );
}

#[test]
fn a_collection_is_always_counted() {
    assert_eq!(condition("count(idle-harvesters) >= 2"), "len(IdleHarvesters()) >= 2");
}

#[test]
fn a_binding_is_replaced_by_its_value() {
    let ir = compile(
        "rule r {\n priority 1\n category economy\n do scout\n let floor = 300\n require cash >= floor\n}\n",
    );
    let Artifact::Expr(rules) = emit::emit(&ir, Target::Expr);
    assert_eq!(rules[0].condition, "Cash() >= 300");
}

#[test]
fn conjuncts_join_with_and_and_an_empty_condition_is_true() {
    let ir = compile(
        "rule r {\n priority 7\n category economy exclusive\n because \"why\"\n do scout\n \
         require cash >= 1\n require is-rushed()\n}\n",
    );
    let Artifact::Expr(rules) = emit::emit(&ir, Target::Expr);
    let r = &rules[0];
    assert_eq!(r.name, "r");
    assert_eq!(r.priority, 7);
    assert_eq!(r.category, "economy");
    assert!(r.exclusive);
    assert_eq!(r.because.as_deref(), Some("why"));
    assert_eq!(r.action, "scout");
    assert_eq!(r.condition, "Cash() >= 1 && IsRushed()");
}

#[test]
fn an_action_keeps_the_language_spelling() {
    let ir = compile(
        "rule r {\n priority 1\n category squad-form\n do form-squad(naval-attack, Naval, 8, Attack)\n \
         require cash >= 1\n}\n",
    );
    let Artifact::Expr(rules) = emit::emit(&ir, Target::Expr);
    assert_eq!(rules[0].action, "form-squad(naval-attack, Naval, 8, Attack)");
}

#[test]
fn predicates_take_the_engine_spelling() {
    assert_eq!(go_name("can-build-role"), "CanBuildRole");
    assert_eq!(go_name("cash"), "Cash");
    assert_eq!(go_name("idle-empty-apcs"), "IdleEmptyAPCs");
    assert_eq!(go_name("idle-combat-loaded-apcs"), "IdleCombatLoadedAPCs");
    assert_eq!(go_name("idle-engineer-loaded-apcs"), "IdleEngineerLoadedAPCs");
    assert_eq!(pascal_case("a--b"), "AB");
    assert_eq!(pascal_case("e1-x"), "E1X");
    assert_eq!(pascal_case(""), "");
}

#[test]
fn roles_are_snake_on_the_wire() {
    let i = member_index(Domain::Role, "war-factory").expect("war-factory");
    assert_eq!(wire_member(Domain::Role, i), "war_factory");
    let p = member_index(Domain::BuildingType, "powr").expect("powr");
    assert_eq!(wire_member(Domain::BuildingType, p), "powr");
}

#[test]
fn operators_bind_as_the_grammar_says() {
    assert!(precedence(BinOp::Or) < precedence(BinOp::And));
    assert!(precedence(BinOp::And) < precedence(BinOp::Lt));
    assert!(precedence(BinOp::Lt) < precedence(BinOp::Add));
    assert!(precedence(BinOp::Add) < precedence(BinOp::Mul));
    assert_eq!(operator(BinOp::Or), "||");
    assert_eq!(operator(BinOp::NotEq), "!=");
}

#[test]
fn a_rule_prints_back_as_vy() {
    let ir = compile(
        "rule build-power {\n priority 800\n category economy exclusive\n \
         do produce-power-plant\n require cash >= 300 and not is-rushed()\n require count(powr) < 2\n}\n",
    );
    assert!(vy::is_printable(&ir));
    let printed = vy::emit(&ir);
    assert_eq!(
        printed[0],
        "rule build-power {\n  priority 800\n  category economy exclusive\n  \
         do produce-power-plant\n  require cash >= 300 and not is-rushed\n  \
         require building-count(powr) < 2\n}"
    );
}

#[test]
fn a_printed_file_separates_rules_with_a_blank_line() {
    let ir = compile(
        "rule a {\n priority 2\n category economy\n do scout\n}\n\
         rule b {\n priority 1\n category combat\n do scout\n require exists nearest-enemy\n}\n",
    );
    assert_eq!(
        vy::emit_file(&ir),
        "rule a {\n  priority 2\n  category economy\n  do scout\n  require true\n}\n\n\
         rule b {\n  priority 1\n  category combat\n  do scout\n  require exists nearest-enemy\n}\n"
    );
}

#[test]
fn a_because_loses_its_double_quotes() {
    assert_eq!(vy::quote("say \"no\""), "\"say 'no'\"");
    assert_eq!(vy::spelling(BinOp::And), "and");
    assert_eq!(vy::binding_power(BinOp::Mul), 5);
}

#[test]
fn printed_vy_reads_back_to_the_same_rules() {
    let src = "rule a {\n priority 2\n category economy exclusive\n do scout\n \
               require cash - (count(powr) - 1) > 0 or has-role(radar)\n require not is-rushed()\n}\n";
    let ir = compile(src);
    let printed = vy::emit_file(&ir);
    let again = compile(&printed);
    assert_eq!(vy::emit_file(&again), printed);
    let Artifact::Expr(first) = emit::emit(&ir, Target::Expr);
    let Artifact::Expr(second) = emit::emit(&again, Target::Expr);
    assert_eq!(first[0].condition, second[0].condition);
}

#[test]
fn emitted_vy_round_trips() {
    let src = "rule a {\n priority 2\n category economy exclusive\n because \"game 16\"\n do scout\n \
               let floor = 300\n require cash - (count(powr) - 1) > floor or has-role(radar)\n \
               require not is-rushed()\n}\n\
               rule b {\n priority 9\n category squad-form\n do form-squad(naval-attack, Naval, 8, Attack)\n \
               require -(cash - 2) * 3 < 4 and (cash > 1 or cash < 0)\n require exists nearest-enemy\n}\n\
               rule c {\n priority 1\n category combat\n do scout\n require has-role(radar)\n}\n";
    let ir = compile(src);
    let Artifact::Expr(before) = emit::emit(&ir, Target::Expr);

    let printed = vy::emit_file(&ir);
    let (tokens, lex_diags) = lex(&printed);
    assert!(lex_diags.is_empty(), "does not lex:\n{printed}");
    let (reparsed, parse_diags) = parse(&tokens);
    assert!(parse_diags.is_empty(), "does not parse: {parse_diags:?}\n{printed}");
    let round = check(&reparsed)
        .unwrap_or_else(|d| panic!("does not check: {d:?}\n{printed}"))
        .ir;
    let Artifact::Expr(after) = emit::emit(&round, Target::Expr);

    assert_eq!(before.len(), after.len(), "rule count");
    for (b, a) in before.iter().zip(&after) {
        assert_eq!(b.name, a.name);
        assert_eq!(b.priority, a.priority, "{}", b.name);
        assert_eq!(b.category, a.category, "{}", b.name);
        assert_eq!(b.exclusive, a.exclusive, "{}", b.name);
        assert_eq!(b.action, a.action, "{}", b.name);
        assert_eq!(b.because, a.because, "{}", b.name);
        assert_eq!(b.condition, a.condition, "{}", b.name);
    }
}
