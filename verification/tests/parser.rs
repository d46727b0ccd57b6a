use vimyc::ast::{Ast, ExprKind, ParamKind};
use vimyc::diag::Diagnostic;
use vimyc::lexer::lex;
use vimyc::parser::parse;

fn parse_str(src: &str) -> (Ast, Vec<Diagnostic>) {
    let (toks, lex_diags) = lex(src);
    assert!(lex_diags.is_empty(), "lexing failed: {lex_diags:?}");
    parse(&toks)
}

#[test]
fn junk_at_top_level_terminates() {
    let (ast, diags) = parse_str("require cash >= 300\n");
    assert!(!diags.is_empty());
    assert!(ast.rules.is_empty());
}

#[test]
fn stray_brace_terminates() {
    let (_, diags) = parse_str("}\n");
    assert!(!diags.is_empty());
}

#[test]
fn recovers_to_the_next_rule() {
    let (ast, diags) = parse_str(
        "garbage here\nrule build-power {\n  priority 800\n  category economy\n  do produce-power-plant\n  require cash >= 300\n}\n",
    );
    assert!(!diags.is_empty(), "the junk should be reported");
    assert_eq!(ast.rules.len(), 1, "the rule after it should still parse");
    assert_eq!(ast.rules[0].name.text, "build-power");
}

#[test]
fn a_rule_missing_a_field_does_not_eat_the_next_one() {
    let (ast, diags) = parse_str(
        "rule broken {\n  category economy\n  do thing\n  require cash >= 300\n}\n\nrule after-it {\n  priority 700\n  category economy\n  do other\n  require cash >= 100\n}\n",
    );
    assert_eq!(diags.len(), 1, "{diags:?}");
    assert_eq!(ast.rules.len(), 1, "the rule after a broken one must still parse");
    assert_eq!(ast.rules[0].name.text, "after-it");
}

#[test]
fn a_whole_rule_parses() {
    let (ast, diags) = parse_str(
        "rule form-naval-squad {\n  priority 300\n  category squad-form exclusive\n  because \"game 16\"\n  \
         do form-squad(naval-attack, Naval, 8, Attack)\n  let size = 8\n  \
         require count(unassigned-idle-naval) >= size\n  require map-has-water()\n}\n",
    );
    assert!(diags.is_empty(), "{diags:?}");
    let r = &ast.rules[0];
    assert_eq!(r.name.text, "form-naval-squad");
    assert_eq!(r.category.text, "squad-form");
    assert!(r.exclusive);
    assert_eq!(r.because.as_deref(), Some("game 16"));
    assert_eq!(r.action.name.text, "form-squad");
    assert_eq!(r.action.args.len(), 4);
    assert_eq!(r.lets.len(), 1);
    assert_eq!(r.requires.len(), 2);
    assert!(matches!(r.priority.kind, ExprKind::Int(300)));
}

#[test]
fn params_and_defs_parse() {
    let (ast, diags) = parse_str("param aggression: float\nparam size: int\ndef twice(n: int) = n * 2\n");
    assert!(diags.is_empty(), "{diags:?}");
    assert_eq!(ast.params.len(), 2);
    assert_eq!(ast.params[0].name.text, "aggression");
    assert_eq!(ast.params[0].kind, ParamKind::Float);
    assert_eq!(ast.params[1].kind, ParamKind::Int);
    assert_eq!(ast.defs.len(), 1);
    assert_eq!(ast.defs[0].name.text, "twice");
    assert_eq!(ast.defs[0].params.len(), 1);
}

#[test]
fn and_binds_tighter_than_or() {
    let (ast, diags) = parse_str(
        "rule r {\n priority 1\n category economy\n do scout\n require is-rushed() or cash >= 1 and has-role(radar)\n}\n",
    );
    assert!(diags.is_empty(), "{diags:?}");
    match &ast.rules[0].requires[0].kind {
        ExprKind::Binary(vimyc::ast::BinOp::Or, _, r) => {
            assert!(matches!(r.kind, ExprKind::Binary(vimyc::ast::BinOp::And, _, _)))
        }
        other => panic!("expected `or` at the top, got {other:?}"),
    }
}

#[test]
fn an_unclosed_rule_reports_at_the_end() {
    let (ast, diags) = parse_str("rule half {\n  priority 300\n");
    assert!(!diags.is_empty());
    assert!(ast.rules.is_empty());
}

#[test]
fn a_trailing_comma_closes_an_argument_list() {
    let (ast, diags) = parse_str(
        "rule r {\n  priority 1\n  category c\n  do form-squad(ground-attack, Ground, 8, Attack,)\n  require can-build(Building, powr,)\n}\n",
    );
    assert!(diags.is_empty(), "{diags:?}");
    assert_eq!(ast.rules[0].action.args.len(), 4);
    match &ast.rules[0].requires[0].kind {
        ExprKind::Call(name, args) => {
            assert_eq!(name.text, "can-build");
            assert_eq!(args.len(), 2);
        }
        other => panic!("expected a call, got {other:?}"),
    }
}

#[test]
fn a_duplicate_field_is_reported() {
    let (_, diags) = parse_str(
        "rule r {\n  priority 1\n  priority 2\n  category c\n  do x\n}\n",
    );
    assert_eq!(diags.len(), 1, "{diags:?}");
    assert_eq!(diags[0].message, "duplicate `priority`");
}

#[test]
fn fields_may_come_in_any_order() {
    let (ast, diags) = parse_str(
        "rule r {\n  require a\n  do x\n  because \"why\"\n  let b = 2\n  category c exclusive\n  priority 3\n  require b > 1\n}\n",
    );
    assert!(diags.is_empty(), "{diags:?}");
    let r = &ast.rules[0];
    assert!(r.exclusive);
    assert_eq!(r.because.as_deref(), Some("why"));
    assert_eq!(r.lets.len(), 1);
    assert_eq!(r.requires.len(), 2);
}

#[test]
fn comparisons_chain_left_to_right() {
    let (ast, diags) = parse_str("rule r {\n  priority 1\n  category c\n  do x\n  require a < b < c\n}\n");
    assert!(diags.is_empty(), "{diags:?}");
    match &ast.rules[0].requires[0].kind {
        ExprKind::Binary(_, left, _) => assert!(matches!(left.kind, ExprKind::Binary(..))),
        other => panic!("expected a binary node, got {other:?}"),
    }
}

#[test]
fn parentheses_leave_no_node() {
    let (ast, diags) = parse_str("rule r {\n  priority ((7))\n  category c\n  do x\n}\n");
    assert!(diags.is_empty(), "{diags:?}");
    assert!(matches!(ast.rules[0].priority.kind, ExprKind::Int(7)));
}

#[test]
fn a_def_parameter_list_takes_no_trailing_comma() {
    let (_, diags) = parse_str("def f(a: int,) = a\n");
    assert!(!diags.is_empty());
}

#[test]
fn every_node_points_at_the_tokens_that_write_it() {
    let src = "rule r {\n  priority 1\n  category c\n  do a(x)\n  require (n + 2) * m\n}\n";
    let (ast, diags) = parse_str(src);
    assert!(diags.is_empty(), "{diags:?}");
    let r = &ast.rules[0];
    let text = |s: vimyc::diag::Span| &src[s.start as usize..s.end as usize];
    assert_eq!(text(r.span), &src[..src.len() - 1]);
    assert_eq!(text(r.name.span), "r");
    assert_eq!(text(r.priority.span), "1");
    assert_eq!(text(r.category.span), "c");
    assert_eq!(text(r.action.span), "a(x)");
    assert_eq!(text(r.action.name.span), "a");
    assert_eq!(text(r.action.args[0].span), "x");
    let cond = &r.requires[0];
    assert_eq!(text(cond.span), "(n + 2) * m");
    match &cond.kind {
        ExprKind::Binary(_, l, rhs) => {
            assert_eq!(text(l.span), "(n + 2)");
            assert_eq!(text(rhs.span), "m");
            match &l.kind {
                ExprKind::Binary(_, a, b) => {
                    assert_eq!(text(a.span), "n");
                    assert_eq!(text(b.span), "2");
                }
                other => panic!("{other:?}"),
            }
        }
        other => panic!("{other:?}"),
    }
}

#[test]
fn a_stray_token_in_a_rule_is_reported_and_skipped() {
    let (ast, diags) = parse_str("rule r {\n priority 1\n junk\n category economy\n do scout\n}\n");
    assert_eq!(diags.len(), 1, "{diags:?}");
    assert_eq!(diags[0].message, "expected a rule field or `require`");
    assert_eq!((diags[0].span.start, diags[0].span.end), (22, 26));
    assert_eq!(ast.rules.len(), 1);
    let r = &ast.rules[0];
    assert_eq!(r.name.text, "r");
    assert!(matches!(r.priority.kind, ExprKind::Int(1)));
    assert_eq!(r.category.text, "economy");
    assert!(!r.exclusive);
    assert_eq!(r.action.name.text, "scout");
    assert!(r.requires.is_empty());
}

#[test]
fn a_missing_priority_is_reported_at_the_rule_name() {
    let (ast, diags) = parse_str(
        "rule broken {\n  category economy\n  do thing\n  require cash >= 300\n}\n\nrule after-it {\n  priority 700\n  category economy\n  do other\n  require cash >= 100\n}\n",
    );
    assert_eq!(diags.len(), 1, "{diags:?}");
    assert_eq!(diags[0].message, "rule has no `priority`");
    assert_eq!((diags[0].span.start, diags[0].span.end), (5, 11));
    assert_eq!(ast.rules.len(), 1);
    assert_eq!(ast.rules[0].name.text, "after-it");
}

#[test]
fn the_last_of_a_duplicated_field_is_kept() {
    let (ast, diags) = parse_str("rule r {\n  priority 1\n  priority 2\n  category c\n  do x\n}\n");
    assert_eq!(diags.len(), 1, "{diags:?}");
    assert_eq!((diags[0].span.start, diags[0].span.end), (24, 32));
    assert_eq!(ast.rules.len(), 1);
    assert!(matches!(ast.rules[0].priority.kind, ExprKind::Int(2)));
}

#[test]
fn junk_before_a_rule_is_reported_once_at_its_first_token() {
    let (ast, diags) = parse_str(
        "garbage here\nrule build-power {\n  priority 800\n  category economy\n  do produce-power-plant\n  require cash >= 300\n}\n",
    );
    assert_eq!(diags.len(), 1, "{diags:?}");
    assert_eq!(diags[0].message, "expected `rule`");
    assert_eq!((diags[0].span.start, diags[0].span.end), (0, 7));
    assert_eq!(ast.rules.len(), 1);
}

#[test]
fn junk_and_a_broken_rule_hide_nothing_after_them() {
    let (ast, diags) = parse_str(
        "junk\nrule a {\n priority 1\n oops\n category economy\n do scout\n}\n\
         rule b {\n category economy\n do scout\n}\n\
         rule c {\n priority 2\n category recon\n do scout\n}\n",
    );
    let messages: Vec<&str> = diags.iter().map(|d| d.message.as_str()).collect();
    assert_eq!(
        messages,
        vec!["expected `rule`", "expected a rule field or `require`", "rule has no `priority`"]
    );
    let names: Vec<&str> = ast.rules.iter().map(|r| r.name.text.as_str()).collect();
    assert_eq!(names, vec!["a", "c"]);
}
