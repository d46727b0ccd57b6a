//! What the checker reports, as a specification.
//!
//! The typing rules in `typing` decide whether a rule set is well typed; these
//! functions say which diagnostics the checker gives for it, in order: each
//! one's message and the span it points at. They walk the tree as the checker
//! does. `Error` is compatible with everything, so a name reported as unknown
//! is not reported again where it is used.
use crate::ast::{Action, Ast, BinOp, Def, DefParam, Expr, ExprKind, Let, Name, Param, Rule, UnOp};
use crate::diag::{Diagnostic, Span};
use crate::env::{
    action_count, action_params_spec, action_spec, all_domains, builtin_named, builtin_params,
    domains_matching, factory_named, is_action_spec, is_category_spec, is_member, member_count,
    member_spec, predicate_at_spec, predicate_count, predicate_name, predicate_named,
    predicate_params, COUNT,
};
use crate::suggest::best_within;
use crate::text::digits;
use crate::types::{domain_name, domains_text, type_text, Domain, ParamSpec, Type};
use crate::typing::{
    def_params_spec, defs_spec, fixed, lets_spec, lookup, lookup_def, params_spec,
    synth_spec, Names,
};
use vstd::prelude::*;
use vstd::utf8::*;

verus! {

/// Diagnostics as a specification sees them: message and span, in order.
pub type Said = Seq<(Seq<char>, Span)>;

pub open spec fn said(ds: Seq<Diagnostic>) -> Said {
    ds.map_values(|d: Diagnostic| (d.message@, d.span))
}

pub open spec fn one(message: Seq<char>, span: Span) -> Said {
    seq![(message, span)]
}

/// Joining three lists of diagnostics, whichever two first.
pub broadcast proof fn lemma_said_join(a: Said, b: Said, c: Said)
    ensures
        #[trigger] ((a + b) + c) == a + (b + c),
{
    assert(((a + b) + c) =~= a + (b + c));
}

/// Nothing joined on.
pub broadcast proof fn lemma_said_nothing(a: Said)
    ensures
        #[trigger] (a + Seq::<(Seq<char>, Span)>::empty()) == a,
{
    assert((a + Seq::<(Seq<char>, Span)>::empty()) =~= a);
}

/// One more diagnostic.
pub proof fn lemma_said_push(ds: Seq<Diagnostic>, d: Diagnostic)
    ensures
        said(ds.push(d)) == said(ds) + one(d.message@, d.span),
{
    assert(said(ds.push(d)) =~= said(ds) + one(d.message@, d.span));
}

/// A " (did you mean `x`?)" note for `name`, or nothing (see
/// `suggest::suggestion`).
pub open spec fn note(name: Seq<char>, cands: Seq<Seq<char>>) -> Seq<char> {
    let budget = if encode_utf8(name).len() / 3 >= 1 {
        encode_utf8(name).len() / 3
    } else {
        1
    };
    match best_within(name, cands, budget as int) {
        Some(i) => " (did you mean `"@ + cands[i] + "`?)"@,
        None => Seq::empty(),
    }
}

/// What an unknown name is compared against: every predicate, then the
/// rule's bindings.
pub open spec fn name_candidates(scope: Seq<(Seq<char>, Type)>) -> Seq<Seq<char>> {
    Seq::new(predicate_count() as nat, |i: int| predicate_name(predicate_at_spec(i)))
        + scope.map_values(|b: (Seq<char>, Type)| b.0)
}

/// The spellings of every member of these domains.
pub open spec fn member_candidates(ds: Seq<Domain>) -> Seq<Seq<char>>
    decreases ds.len(),
{
    if ds.len() == 0 {
        Seq::empty()
    } else {
        member_candidates(ds.drop_last()) + Seq::new(
            member_count(ds.last()) as nat,
            |k: int| member_spec(ds.last(), k),
        )
    }
}

/// Every action's name, plain and factory-built.
pub open spec fn action_candidates() -> Seq<Seq<char>> {
    Seq::new(action_count() as nat, |i: int| action_spec(i))
}

/// Why a name may not be introduced.
pub open spec fn reserved_text(n: Seq<char>) -> Seq<char> {
    if predicate_named(n) is Some {
        "`"@ + n + "` is a predicate"@
    } else if builtin_named(n) is Some {
        "`"@ + n + "` is a builtin"@
    } else {
        "`"@ + n + "` is a "@ + domain_name(domains_matching(all_domains(), n)[0])
    }
}

/// Game state read where only a doctrine is available.
pub open spec fn not_static_text(what: Seq<char>, n: Seq<char>) -> Seq<char> {
    what + " is fixed when the doctrine lands, so it cannot read `"@ + n + "`"@
}

/// A bare name.
pub open spec fn said_ident(names: Names, what: Seq<char>, n: Seq<char>, span: Span) -> Said {
    if !names.fixed && lookup(names.scope, n) is Some {
        Seq::empty()
    } else if lookup(names.params, n) is Some {
        Seq::empty()
    } else if predicate_named(n) is Some {
        let p = predicate_named(n).unwrap();
        if names.fixed {
            one(not_static_text(what, n), span)
        } else if predicate_params(p).len() == 0 {
            Seq::empty()
        } else {
            one(
                "`"@ + n + "` takes "@ + digits(predicate_params(p).len()) + " argument(s); write `"@ + n
                    + "(...)`"@,
                span,
            )
        }
    } else if domains_matching(all_domains(), n).len() > 0 {
        one(
            "`"@ + n + "` is a "@ + domain_name(domains_matching(all_domains(), n)[0])
                + " and only means something as an argument"@,
            span,
        )
    } else {
        one("unknown name `"@ + n + "`"@ + note(n, name_candidates(names.scope)), span)
    }
}

/// What checking an expression bottom-up reports.
pub open spec fn said_synth(names: Names, what: Seq<char>, e: Expr) -> Said
    decreases e, 4nat,
{
    match e.kind {
        ExprKind::Int(_) => Seq::empty(),
        ExprKind::Float(_) => Seq::empty(),
        ExprKind::Error => Seq::empty(),
        ExprKind::Ident(n) => said_ident(names, what, n.text@, n.span),
        ExprKind::Call(n, _) => {
            let name = n.text@;
            if name == COUNT@ {
                if names.fixed {
                    one(not_static_text(what, name), n.span)
                } else {
                    said_count(names, what, e, n.span)
                }
            } else if lookup_def(names.defs, name) is Some {
                let sig = lookup_def(names.defs, name).unwrap();
                said_call(names, what, e, sig.0.map_values(|t: Type| ParamSpec::Exact(t)))
            } else if builtin_named(name) is Some {
                said_call(names, what, e, builtin_params(builtin_named(name).unwrap()))
            } else if predicate_named(name) is Some {
                if names.fixed {
                    one(not_static_text(what, name), n.span)
                } else {
                    said_call(names, what, e, predicate_params(predicate_named(name).unwrap()))
                }
            } else {
                one("unknown predicate `"@ + name + "`"@, n.span)
            }
        },
        ExprKind::Unary(op, x) => match op {
            UnOp::Not => said_check_expr(names, what, *x, Type::Bool),
            UnOp::Neg => {
                let t = synth_spec(names, *x).0;
                said_synth(names, what, *x) + if t.spec_is_numeric() {
                    Seq::empty()
                } else {
                    one("cannot negate "@ + type_text(t), x.span)
                }
            },
            UnOp::Exists => {
                let t = synth_spec(names, *x).0;
                said_synth(names, what, *x) + match t {
                    Type::Option(_) => Seq::empty(),
                    Type::Error => Seq::empty(),
                    _ => one("`exists` needs an optional value, found "@ + type_text(t), x.span),
                }
            },
        },
        ExprKind::Binary(op, l, r) => {
            if op == BinOp::And || op == BinOp::Or {
                said_check_expr(names, what, *l, Type::Bool) + said_check_expr(names, what, *r, Type::Bool)
            } else {
                let lt = synth_spec(names, *l).0;
                let rt = synth_spec(names, *r).0;
                let operands = said_synth(names, what, *l) + said_synth(names, what, *r);
                let optional = lt is Option || rt is Option;
                let use_exists = one("use `exists` to test an optional value"@, e.span);
                let mismatch = one("cannot compare "@ + type_text(lt) + " with "@ + type_text(rt), e.span);
                if op == BinOp::Eq || op == BinOp::NotEq {
                    operands + if optional {
                        use_exists
                    } else if !lt.spec_compatible(&rt) {
                        mismatch
                    } else {
                        Seq::empty()
                    }
                } else if op == BinOp::Lt || op == BinOp::LtEq || op == BinOp::Gt || op == BinOp::GtEq {
                    operands + if optional {
                        use_exists
                    } else if !lt.spec_is_numeric() || !rt.spec_is_numeric() {
                        one("cannot order "@ + type_text(lt) + " and "@ + type_text(rt), e.span)
                    } else if !lt.spec_compatible(&rt) {
                        mismatch
                    } else {
                        Seq::empty()
                    }
                } else {
                    operands + if !lt.spec_is_numeric() || !rt.spec_is_numeric() {
                        one(
                            "arithmetic needs numbers, found "@ + type_text(lt) + " and "@ + type_text(rt),
                            e.span,
                        )
                    } else {
                        Seq::empty()
                    }
                }
            }
        },
    }
}

/// What checking an expression against an expected type reports.
pub open spec fn said_check_expr(names: Names, what: Seq<char>, e: Expr, want: Type) -> Said
    decreases e, 5nat,
{
    match (want, e.kind) {
        (Type::Enum(d), ExprKind::Ident(n)) => if is_member(d, n.text@) {
            Seq::empty()
        } else {
            one(
                "unknown "@ + domain_name(d) + ": `"@ + n.text@ + "`"@ + note(
                    n.text@,
                    member_candidates(seq![d]),
                ),
                n.span,
            )
        },
        _ => {
            let got = synth_spec(names, e).0;
            said_synth(names, what, e) + if got.spec_compatible(&want) {
                Seq::empty()
            } else {
                one("expected "@ + type_text(want) + ", found "@ + type_text(got), e.span)
            }
        },
    }
}

/// What checking an argument against its parameter reports.
pub open spec fn said_check_arg(names: Names, what: Seq<char>, e: Expr, want: ParamSpec) -> Said
    decreases e, 6nat,
{
    match want {
        ParamSpec::AnyOf(ds) => match e.kind {
            ExprKind::Ident(n) => if domains_matching(ds, n.text@).len() == 1 {
                Seq::empty()
            } else {
                one(
                    "unknown "@ + domains_text(ds) + ": `"@ + n.text@ + "`"@ + note(
                        n.text@,
                        member_candidates(ds),
                    ),
                    n.span,
                )
            },
            _ => said_synth(names, what, e) + one(
                "expected "@ + domains_text(ds) + ", found "@ + type_text(synth_spec(names, e).0),
                e.span,
            ),
        },
        ParamSpec::Exact(t) => said_check_expr(fixed(names), "an argument"@, e, t),
    }
}

/// What checking the first `n` arguments reports.
pub open spec fn said_args(names: Names, what: Seq<char>, args: Seq<Expr>, want: Seq<ParamSpec>, n: int) -> Said
    decreases args, n,
{
    if n <= 0 || n > args.len() {
        Seq::empty()
    } else {
        said_args(names, what, args, want, n - 1) + said_check_arg(names, what, args[n - 1], want[n - 1])
    }
}

/// What a call with a fixed signature reports.
pub open spec fn said_call(names: Names, what: Seq<char>, e: Expr, want: Seq<ParamSpec>) -> Said
    decreases e, 3nat,
{
    match e.kind {
        ExprKind::Call(name, args) => if args@.len() != want.len() {
            one(
                "`"@ + name.text@ + "` expects "@ + digits(want.len()) + " argument(s), got "@ + digits(
                    args@.len(),
                ),
                name.span,
            )
        } else {
            said_args(names, what, args@, want, args@.len() as int)
        },
        _ => Seq::empty(),
    }
}

/// What `count` reports.
pub open spec fn said_count(names: Names, what: Seq<char>, e: Expr, span: Span) -> Said
    decreases e, 3nat,
{
    match e.kind {
        ExprKind::Call(_, args) => if args@.len() != 1 {
            one("`count` expects 1 argument, got "@ + digits(args@.len()), span)
        } else {
            let arg = args@[0];
            let building = arg.kind is Ident && is_member(Domain::BuildingType, arg.kind->Ident_0.text@);
            let unit = arg.kind is Ident && is_member(Domain::UnitType, arg.kind->Ident_0.text@);
            if building && unit {
                one("`"@ + arg.kind->Ident_0.text@ + "` is ambiguous across domains"@, arg.kind->Ident_0.span)
            } else if building || unit {
                Seq::empty()
            } else {
                let t = synth_spec(names, arg).0;
                said_synth(names, what, arg) + match t {
                    Type::Collection => Seq::empty(),
                    Type::Error => Seq::empty(),
                    _ => one(
                        "`count` needs a collection or a type name, found "@ + type_text(t),
                        arg.span,
                    ),
                }
            }
        },
        _ => Seq::empty(),
    }
}

/// What an action reports.
pub open spec fn said_action(names: Names, what: Seq<char>, a: Action) -> Said {
    let n = a.name.text@;
    match factory_named(n) {
        Some(i) => if a.args@.len() != action_params_spec(i).len() {
            one(
                "`"@ + n + "` expects "@ + digits(action_params_spec(i).len()) + " argument(s), got "@
                    + digits(a.args@.len()),
                a.span,
            )
        } else {
            said_args(names, what, a.args@, action_params_spec(i), a.args@.len() as int)
        },
        None => if !is_action_spec(n) {
            one("unknown action `"@ + n + "`"@ + note(n, action_candidates()), a.name.span)
        } else if a.args@.len() > 0 {
            one("`"@ + n + "` takes no arguments"@, a.span)
        } else {
            Seq::empty()
        },
    }
}

/// What binding a name reports.
pub open spec fn said_bind(params: Seq<(Seq<char>, Type)>, scope: Seq<(Seq<char>, Type)>, n: Name) -> Said {
    let t = n.text@;
    if predicate_named(t) is Some || builtin_named(t) is Some || domains_matching(all_domains(), t).len() > 0 {
        one(reserved_text(t) + " and cannot be rebound"@, n.span)
    } else if lookup(params, t) is Some {
        one("`"@ + t + "` is a parameter and cannot be rebound"@, n.span)
    } else if lookup(scope, t) is Some {
        one("`"@ + t + "` is already bound in this rule"@, n.span)
    } else {
        Seq::empty()
    }
}

/// What the first `k` bindings of a rule report.
pub open spec fn said_lets(
    params: Seq<(Seq<char>, Type)>,
    defs: Seq<(Seq<char>, Seq<Type>, Type)>,
    lets: Seq<Let>,
    k: int,
) -> Said
    decreases k,
{
    if k <= 0 || k > lets.len() {
        Seq::empty()
    } else {
        let scope = lets_spec(params, defs, lets, k - 1).0;
        let binding = lets[k - 1];
        said_lets(params, defs, lets, k - 1) + said_synth(
            Names { params, defs, scope, fixed: false },
            Seq::empty(),
            binding.value,
        ) + said_bind(params, scope, binding.name)
    }
}

/// What the first `k` conditions of a rule report.
pub open spec fn said_conditions(names: Names, conds: Seq<Expr>, k: int) -> Said
    decreases k,
{
    if k <= 0 || k > conds.len() {
        Seq::empty()
    } else {
        said_conditions(names, conds, k - 1) + said_check_expr(names, Seq::empty(), conds[k - 1], Type::Bool)
    }
}

/// What one rule reports: its priority, bindings, conditions, category and
/// action, in that order.
pub open spec fn said_rule(params: Seq<(Seq<char>, Type)>, defs: Seq<(Seq<char>, Seq<Type>, Type)>, rule: Rule) -> Said {
    let scope = lets_spec(params, defs, rule.lets@, rule.lets@.len() as int).0;
    let tick = Names { params, defs, scope, fixed: false };
    said_check_expr(
        Names { params, defs, scope: Seq::empty(), fixed: true },
        "a priority"@,
        rule.priority,
        Type::Int,
    ) + said_lets(params, defs, rule.lets@, rule.lets@.len() as int) + said_conditions(
        tick,
        rule.requires@,
        rule.requires@.len() as int,
    ) + if is_category_spec(rule.category.text@) {
        Seq::empty()
    } else {
        one("unknown category `"@ + rule.category.text@ + "`"@, rule.category.span)
    } + said_action(tick, Seq::empty(), rule.action)
}

/// What the first `k` parameter declarations report.
pub open spec fn said_params(decls: Seq<Param>, k: int) -> Said
    decreases k,
{
    if k <= 0 || k > decls.len() {
        Seq::empty()
    } else {
        let ps = params_spec(decls, k - 1).0;
        let n = decls[k - 1].name;
        let t = n.text@;
        said_params(decls, k - 1) + if predicate_named(t) is Some || builtin_named(t) is Some
            || domains_matching(all_domains(), t).len() > 0 {
            one(reserved_text(t) + " and cannot be a parameter"@, n.span)
        } else if lookup(ps, t) is Some {
            one("`"@ + t + "` is declared twice"@, n.span)
        } else {
            Seq::empty()
        }
    }
}

/// What the first `k` parameters of a def report.
pub open spec fn said_def_params(dps: Seq<DefParam>, k: int) -> Said
    decreases k,
{
    if k <= 0 || k > dps.len() {
        Seq::empty()
    } else {
        let n = dps[k - 1].name;
        let t = n.text@;
        said_def_params(dps, k - 1) + if predicate_named(t) is Some || builtin_named(t) is Some
            || domains_matching(all_domains(), t).len() > 0 {
            one(reserved_text(t) + " and cannot be a def parameter"@, n.span)
        } else {
            Seq::empty()
        }
    }
}

/// What the first `k` defs report.
pub open spec fn said_defs(decls: Seq<Def>, params: Seq<(Seq<char>, Type)>, k: int) -> Said
    decreases k,
{
    if k <= 0 || k > decls.len() {
        Seq::empty()
    } else {
        let ds = defs_spec(decls, params, k - 1).0;
        let d = decls[k - 1];
        let t = d.name.text@;
        said_defs(decls, params, k - 1) + if predicate_named(t) is Some || builtin_named(t) is Some
            || domains_matching(all_domains(), t).len() > 0 {
            one(reserved_text(t) + " and cannot be a def"@, d.name.span)
        } else if lookup_def(ds, t) is Some || lookup(params, t) is Some {
            one("`"@ + t + "` is already declared"@, d.name.span)
        } else {
            let visible = def_params_spec(params, d.params@, d.params@.len() as int).0;
            said_def_params(d.params@, d.params@.len() as int) + said_synth(
                Names { params: visible, defs: ds, scope: Seq::empty(), fixed: false },
                Seq::empty(),
                d.body,
            )
        }
    }
}

/// What the first `k` rules report.
pub open spec fn said_rules(
    params: Seq<(Seq<char>, Type)>,
    defs: Seq<(Seq<char>, Seq<Type>, Type)>,
    rules: Seq<Rule>,
    k: int,
) -> Said
    decreases k,
{
    if k <= 0 || k > rules.len() {
        Seq::empty()
    } else {
        said_rules(params, defs, rules, k - 1) + said_rule(params, defs, rules[k - 1])
    }
}

/// Everything checking a rule set reports: its parameters, its defs, then
/// each rule.
pub open spec fn said_program(ast: Ast) -> Said {
    let params = params_spec(ast.params@, ast.params@.len() as int).0;
    let defs = defs_spec(ast.defs@, params, ast.defs@.len() as int).0;
    said_params(ast.params@, ast.params@.len() as int) + said_defs(
        ast.defs@,
        params,
        ast.defs@.len() as int,
    ) + said_rules(params, defs, ast.rules@, ast.rules@.len() as int)
}

} // verus!
