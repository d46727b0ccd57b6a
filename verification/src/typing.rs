//! The typing rules, as a specification.
//!
//! What the checker decides, written as functions of the tree: the type an
//! expression has and whether it is well typed, given what its names may
//! refer to. `check` is proved to report an error exactly where these rules
//! say the rule set is ill typed.
use crate::ast::{Action, BinOp, Def, DefParam, Expr, ExprKind, Let, Param, ParamKind, Rule, UnOp};
use crate::env::{
    action_params_spec, all_domains, builtin_named, builtin_params, builtin_ret, domains_matching,
    factory_named, is_action_spec, is_category_spec, is_member, predicate_named, predicate_params,
    predicate_ret, COUNT,
};
use crate::types::{Domain, ParamSpec, Type};
use vstd::prelude::*;

verus! {

/// What a name may refer to while checking one expression.
pub struct Names {
    /// The doctrine's parameters, or a def's visible names.
    pub params: Seq<(Seq<char>, Type)>,
    /// The defs declared so far: name, parameter types, result.
    pub defs: Seq<(Seq<char>, Seq<Type>, Type)>,
    /// The rule's bindings so far.
    pub scope: Seq<(Seq<char>, Type)>,
    /// A priority or an argument: settled when the doctrine lands, so it may
    /// not read game state or see a binding.
    pub fixed: bool,
}

/// The type of the first entry named `n`.
pub open spec fn lookup(s: Seq<(Seq<char>, Type)>, n: Seq<char>) -> Option<Type>
    decreases s.len(),
{
    if s.len() == 0 {
        None
    } else if s[0].0 == n {
        Some(s[0].1)
    } else {
        lookup(s.drop_first(), n)
    }
}

/// The signature of the first def named `n`.
pub open spec fn lookup_def(s: Seq<(Seq<char>, Seq<Type>, Type)>, n: Seq<char>) -> Option<(Seq<Type>, Type)>
    decreases s.len(),
{
    if s.len() == 0 {
        None
    } else if s[0].0 == n {
        Some((s[0].1, s[0].2))
    } else {
        lookup_def(s.drop_first(), n)
    }
}

/// A name that may not be introduced: a predicate, a builtin, or a member of
/// some domain.
pub open spec fn reserved_name(n: Seq<char>) -> bool {
    ||| exists|p: crate::env::Predicate| crate::env::predicate_name(p) == n
    ||| exists|b: crate::env::Builtin| crate::env::builtin_name(b) == n
    ||| domains_matching(all_domains(), n).len() > 0
}

pub open spec fn kind_type(k: ParamKind) -> Type {
    match k {
        ParamKind::Int => Type::Int,
        ParamKind::Float => Type::Float,
    }
}

/// The same names, in a position settled when the doctrine lands.
pub open spec fn fixed(names: Names) -> Names {
    Names { params: names.params, defs: names.defs, scope: names.scope, fixed: true }
}

/// A bare name: a binding, a parameter, or a predicate taking no arguments.
pub open spec fn ident_spec(names: Names, n: Seq<char>) -> (Type, bool) {
    if !names.fixed && lookup(names.scope, n) is Some {
        (lookup(names.scope, n).unwrap(), true)
    } else if lookup(names.params, n) is Some {
        (lookup(names.params, n).unwrap(), true)
    } else if predicate_named(n) is Some {
        let p = predicate_named(n).unwrap();
        if names.fixed {
            (Type::Error, false)
        } else if predicate_params(p).len() == 0 {
            (predicate_ret(p), true)
        } else {
            (Type::Error, false)
        }
    } else {
        (Type::Error, false)
    }
}

/// The type of an expression, and whether it is well typed.
///
/// `Error` is compatible with everything and reported once, so a mistake
/// below makes no new one above.
pub open spec fn synth_spec(names: Names, e: Expr) -> (Type, bool)
    decreases e, 4nat,
{
    match e.kind {
        ExprKind::Int(_) => (Type::Int, true),
        ExprKind::Float(_) => (Type::Float, true),
        ExprKind::Error => (Type::Error, true),
        ExprKind::Ident(n) => ident_spec(names, n.text@),
        ExprKind::Call(n, _) => {
            let name = n.text@;
            if name == COUNT@ {
                if names.fixed {
                    (Type::Error, false)
                } else {
                    count_spec(names, e)
                }
            } else if lookup_def(names.defs, name) is Some {
                let sig = lookup_def(names.defs, name).unwrap();
                call_spec(names, e, sig.0.map_values(|t: Type| ParamSpec::Exact(t)), sig.1)
            } else if builtin_named(name) is Some {
                let b = builtin_named(name).unwrap();
                call_spec(names, e, builtin_params(b), builtin_ret(b))
            } else if predicate_named(name) is Some {
                let p = predicate_named(name).unwrap();
                if names.fixed {
                    (Type::Error, false)
                } else {
                    call_spec(names, e, predicate_params(p), predicate_ret(p))
                }
            } else {
                (Type::Error, false)
            }
        },
        ExprKind::Unary(op, x) => match op {
            UnOp::Not => (Type::Bool, check_expr_spec(names, *x, Type::Bool)),
            UnOp::Neg => {
                let (t, ok) = synth_spec(names, *x);
                if t.spec_is_numeric() {
                    (t, ok)
                } else {
                    (Type::Error, false)
                }
            },
            UnOp::Exists => {
                let (t, ok) = synth_spec(names, *x);
                match t {
                    Type::Option(_) => (Type::Bool, ok),
                    Type::Error => (Type::Error, ok),
                    _ => (Type::Error, false),
                }
            },
        },
        ExprKind::Binary(op, l, r) => {
            if op == BinOp::And || op == BinOp::Or {
                (Type::Bool, check_expr_spec(names, *l, Type::Bool) && check_expr_spec(names, *r, Type::Bool))
            } else {
                let (lt, lok) = synth_spec(names, *l);
                let (rt, rok) = synth_spec(names, *r);
                let optional = lt is Option || rt is Option;
                if op == BinOp::Eq || op == BinOp::NotEq {
                    (Type::Bool, lok && rok && !optional && lt.spec_compatible(&rt))
                } else if op == BinOp::Lt || op == BinOp::LtEq || op == BinOp::Gt || op == BinOp::GtEq {
                    (
                        Type::Bool,
                        lok && rok && !optional && lt.spec_is_numeric() && rt.spec_is_numeric()
                            && lt.spec_compatible(&rt),
                    )
                } else if !lt.spec_is_numeric() || !rt.spec_is_numeric() {
                    (Type::Error, false)
                } else if lt is Float || rt is Float {
                    (Type::Float, lok && rok)
                } else {
                    (Type::Int, lok && rok)
                }
            }
        },
    }
}

/// Whether an expression fits an expected type. A bare name in an enum
/// position is looked up in that domain.
pub open spec fn check_expr_spec(names: Names, e: Expr, want: Type) -> bool
    decreases e, 5nat,
{
    if want is Enum && e.kind is Ident {
        is_member(want->Enum_0, e.kind->Ident_0.text@)
    } else {
        let (got, ok) = synth_spec(names, e);
        ok && got.spec_compatible(&want)
    }
}

/// Whether an argument fits its parameter. A numeric argument is settled when
/// the doctrine lands.
pub open spec fn check_arg_spec(names: Names, e: Expr, want: ParamSpec) -> bool
    decreases e, 6nat,
{
    match want {
        ParamSpec::AnyOf(ds) => e.kind is Ident && domains_matching(ds, e.kind->Ident_0.text@).len() == 1,
        ParamSpec::Exact(t) => check_expr_spec(fixed(names), e, t),
    }
}

/// Whether the first `n` arguments fit their parameters.
pub open spec fn args_ok(names: Names, args: Seq<Expr>, want: Seq<ParamSpec>, n: int) -> bool
    decreases args, n,
{
    if n <= 0 || n > args.len() {
        true
    } else {
        args_ok(names, args, want, n - 1) && check_arg_spec(names, args[n - 1], want[n - 1])
    }
}

/// A call with a fixed signature — a def, a builtin or a predicate.
pub open spec fn call_spec(names: Names, e: Expr, want: Seq<ParamSpec>, ret: Type) -> (Type, bool)
    decreases e, 3nat,
{
    match e.kind {
        ExprKind::Call(_, args) => if args@.len() != want.len() {
            (Type::Error, false)
        } else {
            (ret, args_ok(names, args@, want, args@.len() as int))
        },
        _ => (Type::Error, true),
    }
}

/// `count`: of a building or unit type named bare, or of a collection.
pub open spec fn count_spec(names: Names, e: Expr) -> (Type, bool)
    decreases e, 3nat,
{
    match e.kind {
        ExprKind::Call(_, args) => if args@.len() != 1 {
            (Type::Error, false)
        } else {
            let arg = args@[0];
            let building = arg.kind is Ident && is_member(Domain::BuildingType, arg.kind->Ident_0.text@);
            let unit = arg.kind is Ident && is_member(Domain::UnitType, arg.kind->Ident_0.text@);
            if building && unit {
                (Type::Error, false)
            } else if building || unit {
                (Type::Int, true)
            } else {
                let (t, ok) = synth_spec(names, arg);
                match t {
                    Type::Collection => (Type::Int, ok),
                    Type::Error => (Type::Error, ok),
                    _ => (Type::Error, false),
                }
            }
        },
        _ => (Type::Error, true),
    }
}

/// An action: a plain one takes no arguments, a factory-built one its own.
pub open spec fn action_ok(names: Names, a: Action) -> bool {
    match factory_named(a.name.text@) {
        Some(i) => a.args@.len() == action_params_spec(i).len() && args_ok(
            names,
            a.args@,
            action_params_spec(i),
            a.args@.len() as int,
        ),
        None => is_action_spec(a.name.text@) && a.args@.len() == 0,
    }
}

/// Whether a binding may take this name: it shadows nothing.
pub open spec fn bind_ok(params: Seq<(Seq<char>, Type)>, scope: Seq<(Seq<char>, Type)>, n: Seq<char>) -> bool {
    !reserved_name(n) && lookup(params, n) is None && lookup(scope, n) is None
}

/// The scope after the first `k` bindings, and whether they were well typed.
pub open spec fn lets_spec(
    params: Seq<(Seq<char>, Type)>,
    defs: Seq<(Seq<char>, Seq<Type>, Type)>,
    lets: Seq<Let>,
    k: int,
) -> (Seq<(Seq<char>, Type)>, bool)
    decreases k,
{
    if k <= 0 || k > lets.len() {
        (Seq::empty(), true)
    } else {
        let (scope, ok) = lets_spec(params, defs, lets, k - 1);
        let binding = lets[k - 1];
        let (t, tok) = synth_spec(Names { params, defs, scope, fixed: false }, binding.value);
        if bind_ok(params, scope, binding.name.text@) {
            (scope.push((binding.name.text@, t)), ok && tok)
        } else {
            (scope, false)
        }
    }
}

/// Whether one rule is well typed.
pub open spec fn rule_ok(params: Seq<(Seq<char>, Type)>, defs: Seq<(Seq<char>, Seq<Type>, Type)>, rule: Rule) -> bool {
    let (scope, lets_ok) = lets_spec(params, defs, rule.lets@, rule.lets@.len() as int);
    let tick = Names { params, defs, scope, fixed: false };
    &&& check_expr_spec(Names { params, defs, scope: Seq::empty(), fixed: true }, rule.priority, Type::Int)
    &&& lets_ok
    &&& forall|j: int| 0 <= j < rule.requires@.len() ==> #[trigger] check_expr_spec(tick, rule.requires@[j], Type::Bool)
    &&& is_category_spec(rule.category.text@)
    &&& action_ok(tick, rule.action)
}

/// The parameters after the first `k` declarations, and whether they were
/// well declared. A rejected one is still recorded, as `Error`, so it does not
/// become an unknown name at every use.
pub open spec fn params_spec(decls: Seq<Param>, k: int) -> (Seq<(Seq<char>, Type)>, bool)
    decreases k,
{
    if k <= 0 || k > decls.len() {
        (Seq::empty(), true)
    } else {
        let (ps, ok) = params_spec(decls, k - 1);
        let n = decls[k - 1].name.text@;
        if reserved_name(n) || lookup(ps, n) is Some {
            (ps.push((n, Type::Error)), false)
        } else {
            (ps.push((n, kind_type(decls[k - 1].kind))), ok)
        }
    }
}

/// What a def's body may see, its parameter types, and whether its
/// parameters are well named, after the first `k` of them.
pub open spec fn def_params_spec(params: Seq<(Seq<char>, Type)>, dps: Seq<DefParam>, k: int) -> (
    Seq<(Seq<char>, Type)>,
    Seq<Type>,
    bool,
)
    decreases k,
{
    if k <= 0 || k > dps.len() {
        (params, Seq::empty(), true)
    } else {
        let (visible, types, ok) = def_params_spec(params, dps, k - 1);
        let p = dps[k - 1];
        (
            visible.push((p.name.text@, kind_type(p.kind))),
            types.push(kind_type(p.kind)),
            ok && !reserved_name(p.name.text@),
        )
    }
}

/// The defs after the first `k` declarations, and whether they were well
/// typed. Each sees only the defs before it, which rules out recursion.
pub open spec fn defs_spec(decls: Seq<Def>, params: Seq<(Seq<char>, Type)>, k: int) -> (
    Seq<(Seq<char>, Seq<Type>, Type)>,
    bool,
)
    decreases k,
{
    if k <= 0 || k > decls.len() {
        (Seq::empty(), true)
    } else {
        let (ds, ok) = defs_spec(decls, params, k - 1);
        let d = decls[k - 1];
        let n = d.name.text@;
        if reserved_name(n) || lookup_def(ds, n) is Some || lookup(params, n) is Some {
            (ds, false)
        } else {
            let (visible, types, pok) = def_params_spec(params, d.params@, d.params@.len() as int);
            let (ret, bok) = synth_spec(
                Names { params: visible, defs: ds, scope: Seq::empty(), fixed: false },
                d.body,
            );
            (ds.push((n, types, ret)), ok && pok && bok)
        }
    }
}

/// Whether a whole rule set is well typed.
pub open spec fn well_typed(ast: crate::ast::Ast) -> bool {
    let (params, pok) = params_spec(ast.params@, ast.params@.len() as int);
    let (defs, dok) = defs_spec(ast.defs@, params, ast.defs@.len() as int);
    &&& pok
    &&& dok
    &&& forall|i: int| 0 <= i < ast.rules@.len() ==> #[trigger] rule_ok(params, defs, ast.rules@[i])
}

/// Arithmetic widens: on two numbers it gives a `float` when either operand
/// is one and an `int` only when both are, so an `int` mixed with a `float`
/// is never narrowed; and which operand comes first does not matter. Any
/// other operand has no arithmetic.
pub proof fn lemma_arithmetic_widens(names: Names, e: Expr, swapped: Expr)
    requires
        e.kind matches ExprKind::Binary(op, _, _) && (op == BinOp::Add || op == BinOp::Sub || op == BinOp::Mul
            || op == BinOp::Div),
        swapped.kind == (match e.kind {
            ExprKind::Binary(op, l, r) => ExprKind::Binary(op, r, l),
            _ => e.kind,
        }),
    ensures
        ({
            let (l, r) = match e.kind {
                ExprKind::Binary(_, l, r) => (*l, *r),
                _ => (e, e),
            };
            let lt = synth_spec(names, l).0;
            let rt = synth_spec(names, r).0;
            &&& (lt is Int || lt is Float) && (rt is Int || rt is Float) ==> synth_spec(names, e).0 == if lt is Float
                || rt is Float {
                Type::Float
            } else {
                Type::Int
            }
            &&& lt is Float && rt.spec_is_numeric() ==> synth_spec(names, e).0 == Type::Float
            &&& rt is Float && lt.spec_is_numeric() ==> synth_spec(names, e).0 == Type::Float
            &&& lt is Int && rt is Int ==> synth_spec(names, e).0 == Type::Int
            &&& !lt.spec_is_numeric() || !rt.spec_is_numeric() ==> synth_spec(names, e) == (Type::Error, false)
            &&& synth_spec(names, e).0 == synth_spec(names, swapped).0
        }),
{
}

/// Negation keeps a number's type; `not` and `exists` give a `bool`.
pub proof fn lemma_prefix_types(names: Names, e: Expr)
    requires
        e.kind is Unary,
    ensures
        ({
            let (op, x) = match e.kind {
                ExprKind::Unary(op, x) => (op, *x),
                _ => (UnOp::Not, e),
            };
            &&& op == UnOp::Neg && synth_spec(names, x).0.spec_is_numeric() ==> synth_spec(names, e) == synth_spec(names, x)
            &&& op == UnOp::Not ==> synth_spec(names, e).0 == Type::Bool
            &&& op == UnOp::Exists && synth_spec(names, x).0 is Option ==> synth_spec(names, e).0 == Type::Bool
        }),
{
}

} // verus!
