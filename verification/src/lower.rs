//! `Ast` to `Ir`: resolving every name exactly once, and inlining every `def`.
//!
//! Runs after a check that reported nothing, so nothing here reports a
//! diagnostic. A name that does not resolve makes the whole lowering `None`
//! rather than a panic; `totality` shows that a well-typed tree without holes
//! never gets there.
use crate::ast::{Action, Ast, Def, DefParam, Expr, ExprKind, Let, Param, Rule};
use crate::env::{
    self, Predicate, action_params_spec, builtin_named, builtin_params, factory_named, is_member,
    member_count, member_spec, predicate_named, predicate_params, COUNT,
};
use crate::ir::{
    ActionId, CategoryId, Ir, IrAction, IrExpr, IrExprKind, IrParam, IrRule, same_ir,
};
use crate::text::str_eq;
use crate::types::{Domain, ParamSpec, ParamType, Type, param_view, params_view};
use vstd::prelude::*;

verus! {

/// What a name can mean while lowering one expression.
struct Env<'a> {
    /// The doctrine parameters, in slot order.
    params: &'a Vec<String>,
    defs: &'a Vec<Def>,
    /// How many defs are visible: only earlier ones, which is what makes
    /// inlining terminate.
    visible: usize,
    /// The rule's bindings, in slot order.
    scope: &'a Vec<String>,
    /// A def's parameters, bound to the lowered arguments of the call being
    /// inlined.
    subst: &'a Vec<(String, IrExpr)>,
}

spec fn env_ok(env: &Env) -> bool {
    env.visible <= env.defs@.len()
}

spec fn resolve_of(env: &Env) -> Resolve {
    Resolve {
        params: texts_of(env.params@),
        defs: env.defs@,
        visible: env.visible as int,
        scope: texts_of(env.scope@),
        subst: env.subst@,
    }
}

/// What a name can mean while lowering one expression, as a specification
/// sees it.
pub struct Resolve {
    /// The doctrine parameters, in slot order.
    pub params: Seq<Seq<char>>,
    pub defs: Seq<Def>,
    /// How many defs are visible.
    pub visible: int,
    /// The rule's bindings, in slot order.
    pub scope: Seq<Seq<char>>,
    /// A def's parameters, bound to the lowered arguments of its call.
    pub subst: Seq<(String, IrExpr)>,
}

/// The texts of some names.
pub open spec fn texts_of(v: Seq<String>) -> Seq<Seq<char>> {
    Seq::new(v.len(), |i: int| v[i]@)
}

/// The first index at or after `i` where `s` holds `n`, or -1.
pub open spec fn first_from(s: Seq<Seq<char>>, n: Seq<char>, i: int) -> int
    decreases s.len() - i,
{
    if i < 0 || i >= s.len() {
        -1
    } else if s[i] == n {
        i
    } else {
        first_from(s, n, i + 1)
    }
}

/// The first index at or after `i` where `s` binds `n`, or -1.
pub open spec fn first_bound(s: Seq<(String, IrExpr)>, n: Seq<char>, i: int) -> int
    decreases s.len() - i,
{
    if i < 0 || i >= s.len() {
        -1
    } else if s[i].0@ == n {
        i
    } else {
        first_bound(s, n, i + 1)
    }
}

/// The first visible def at or after `i` named `n`, or -1.
pub open spec fn first_def(c: Resolve, n: Seq<char>, i: int) -> int
    decreases c.visible - i,
{
    if i < 0 || i >= c.visible || i >= c.defs.len() {
        -1
    } else if c.defs[i].name.text@ == n {
        i
    } else {
        first_def(c, n, i + 1)
    }
}

/// A name bound by the rule, by a def being inlined, or by the doctrine.
pub open spec fn is_bound_spec(c: Resolve, n: Seq<char>) -> bool {
    ||| first_from(c.scope, n, 0) >= 0
    ||| first_bound(c.subst, n, 0) >= 0
    ||| first_from(c.params, n, 0) >= 0
}

/// `x` is the member of `d` named `n`: its first entry with that name.
pub open spec fn member_lowered(d: Domain, n: Seq<char>, x: IrExprKind) -> bool {
    x matches IrExprKind::Member(d2, idx) && d2 == d && idx < member_count(d) && member_spec(
        d,
        idx as int,
    ) == n && forall|j: int| 0 <= j < idx ==> member_spec(d, j) != n
}

/// `x` is the member named `n` of the first of the domains `ds` that has one.
pub open spec fn member_of_first(ds: Seq<Domain>, n: Seq<char>, x: IrExprKind) -> bool {
    exists|k: int|
        0 <= k < ds.len() && #[trigger] member_lowered(ds[k], n, x) && forall|m: int|
            0 <= m < k ==> !is_member(ds[m], n)
}

/// A bare name: a binding, a def's parameter (the argument bound to it), a
/// doctrine parameter, or a predicate of no arguments, in that order.
pub open spec fn ident_lowers(c: Resolve, n: Seq<char>, span: crate::diag::Span, x: IrExpr) -> bool {
    let s = first_from(c.scope, n, 0);
    let k = first_bound(c.subst, n, 0);
    let p = first_from(c.params, n, 0);
    if s >= 0 {
        x.kind == IrExprKind::Binding(s as u32) && x.span == span
    } else if k >= 0 {
        same_ir(x, c.subst[k].1)
    } else if p >= 0 {
        x.kind == IrExprKind::Param(p as u32) && x.span == span
    } else {
        &&& predicate_named(n) is Some
        &&& predicate_params(predicate_named(n).unwrap()).len() == 0
        &&& x.span == span
        &&& x.kind matches IrExprKind::Predicate(q, xs) && q == predicate_named(n).unwrap()
            && xs@.len() == 0
    }
}

/// `x` is what the expression `e` lowers to: names resolved, `count`
/// decided, defs inlined.
pub open spec fn lowers(c: Resolve, e: Expr, x: IrExpr) -> bool
    decreases c.visible, e, 2int,
{
    match e.kind {
        ExprKind::Int(n) => x.span == e.span && x.kind == IrExprKind::Int(n),
        ExprKind::Float(f) => x.span == e.span && (x.kind matches IrExprKind::Float(g) && g@ == f@),
        ExprKind::Ident(name) => ident_lowers(c, name.text@, e.span, x),
        ExprKind::Call(name, args) => {
            let n = name.text@;
            if n == COUNT@ {
                count_lowers(c, e, x)
            } else if first_def(c, n, 0) >= 0 {
                inline_lowers(c, e, first_def(c, n, 0), x)
            } else if builtin_named(n) is Some {
                &&& x.span == e.span
                &&& x.kind matches IrExprKind::Builtin(b, xs) && b == builtin_named(n).unwrap()
                    && args_lower(c, args@, builtin_params(b), xs@)
            } else if predicate_named(n) is Some {
                &&& x.span == e.span
                &&& x.kind matches IrExprKind::Predicate(q, xs) && q == predicate_named(n).unwrap()
                    && args_lower(c, args@, predicate_params(q), xs@)
            } else {
                false
            }
        },
        ExprKind::Unary(op, a) => x.span == e.span && (x.kind matches IrExprKind::Unary(op2, xa)
            && op2 == op && lowers(c, *a, *xa)),
        ExprKind::Binary(op, l, r) => x.span == e.span && (x.kind matches IrExprKind::Binary(
            op2,
            xl,
            xr,
        ) && op2 == op && lowers(c, *l, *xl) && lowers(c, *r, *xr)),
        ExprKind::Error => false,
    }
}

/// Arguments against the parameters they fill, one for one.
pub open spec fn args_lower(c: Resolve, args: Seq<Expr>, want: Seq<ParamSpec>, xs: Seq<IrExpr>) -> bool
    decreases c.visible, args, 1int,
{
    &&& args.len() == want.len()
    &&& xs.len() == args.len()
    &&& args.len() > 0 ==> {
        &&& args_lower(
            c,
            args.subrange(0, args.len() - 1),
            want.subrange(0, want.len() - 1),
            xs.subrange(0, xs.len() - 1),
        )
        &&& arg_lowers(c, args[args.len() - 1], want[want.len() - 1], xs[xs.len() - 1])
    }
}

/// An argument in a position whose parameter type is known: a bare name that
/// nothing binds is a member of the domain the position asks for.
pub open spec fn arg_lowers(c: Resolve, e: Expr, want: ParamSpec, x: IrExpr) -> bool
    decreases c.visible, e, 3int,
{
    if e.kind is Ident && !is_bound_spec(c, e.kind->Ident_0.text@) {
        let n = e.kind->Ident_0.text@;
        match want {
            ParamSpec::AnyOf(ds) => x.span == e.span && member_of_first(ds, n, x.kind),
            ParamSpec::Exact(Type::Enum(d)) => x.span == e.span && member_lowered(d, n, x.kind),
            ParamSpec::Exact(_) => lowers(c, e, x),
        }
    } else {
        lowers(c, e, x)
    }
}

/// `count`: of a building or unit type named bare, or of a collection, in
/// which case the collection is the whole expression.
pub open spec fn count_lowers(c: Resolve, e: Expr, x: IrExpr) -> bool
    decreases c.visible, e, 1int,
{
    match e.kind {
        ExprKind::Call(_, args) => {
            &&& args@.len() == 1
            &&& {
                let a = args@[0];
                let bare = a.kind is Ident && !is_bound_spec(c, a.kind->Ident_0.text@);
                let n = a.kind->Ident_0.text@;
                if bare && is_member(Domain::BuildingType, n) {
                    &&& x.span == e.span
                    &&& x.kind matches IrExprKind::Predicate(q, xs) && q == Predicate::BuildingCount
                        && xs@.len() == 1 && xs@[0].span == a.span && member_lowered(
                        Domain::BuildingType,
                        n,
                        xs@[0].kind,
                    )
                } else if bare && is_member(Domain::UnitType, n) {
                    &&& x.span == e.span
                    &&& x.kind matches IrExprKind::Predicate(q, xs) && q == Predicate::UnitCount
                        && xs@.len() == 1 && xs@[0].span == a.span && member_lowered(
                        Domain::UnitType,
                        n,
                        xs@[0].kind,
                    )
                } else {
                    lowers(c, a, x)
                }
            }
        },
        _ => false,
    }
}

/// The names of a def's parameters bound to the arguments of a call, each
/// lowered where the call stands.
pub open spec fn binds(
    c: Resolve,
    args: Seq<Expr>,
    dps: Seq<DefParam>,
    bound: Seq<(String, IrExpr)>,
) -> bool
    decreases c.visible, args, 1int,
{
    &&& args.len() == dps.len()
    &&& bound.len() == args.len()
    &&& args.len() > 0 ==> {
        &&& binds(
            c,
            args.subrange(0, args.len() - 1),
            dps.subrange(0, dps.len() - 1),
            bound.subrange(0, bound.len() - 1),
        )
        &&& bound[bound.len() - 1].0@ == dps[dps.len() - 1].name.text@
        &&& lowers(c, args[args.len() - 1], bound[bound.len() - 1].1)
    }
}

/// How many arguments a binding holds.
pub open spec fn holds(bound: Seq<(String, IrExpr)>, n: int) -> bool {
    bound.len() == n
}

/// The names a def's body sees: the doctrine's, the defs before it, and its
/// own parameters.
pub open spec fn inner(c: Resolve, k: int, bound: Seq<(String, IrExpr)>) -> Resolve {
    Resolve { params: c.params, defs: c.defs, visible: k, scope: Seq::empty(), subst: bound }
}

/// A call of the `k`th def: its body, lowered with its parameters bound to
/// the call's lowered arguments.
pub open spec fn inline_lowers(c: Resolve, e: Expr, k: int, x: IrExpr) -> bool
    decreases c.visible, e, 1int,
{
    match e.kind {
        ExprKind::Call(_, args) => {
            &&& 0 <= k < c.visible
            &&& k < c.defs.len()
            &&& exists|bound: Seq<(String, IrExpr)>|
                #[trigger] holds(bound, args@.len() as int) && binds(
                    c,
                    args@,
                    c.defs[k].params@,
                    bound,
                ) && lowers(inner(c, k, bound), c.defs[k].body, x)
        },
        _ => false,
    }
}

/// An action: a plain one takes no arguments, a factory-built one its own.
pub open spec fn action_lowers(c: Resolve, a: Action, x: IrAction) -> bool {
    match factory_named(a.name.text@) {
        Some(i) => args_lower(c, a.args@, action_params_spec(i), x.args@),
        None => a.args@.len() == 0 && x.args@.len() == 0,
    }
}

/// The names of some bindings, in order.
pub open spec fn let_names(lets: Seq<Let>) -> Seq<Seq<char>> {
    Seq::new(lets.len(), |i: int| lets[i].name.text@)
}

/// The names of some parameters, in order.
pub open spec fn param_names(ps: Seq<Param>) -> Seq<Seq<char>> {
    Seq::new(ps.len(), |i: int| ps[i].name.text@)
}

/// Where a rule's expressions are lowered: the doctrine's parameters, every
/// def, and the bindings in `scope`.
pub open spec fn rule_scope(ps: Seq<Seq<char>>, defs: Seq<Def>, scope: Seq<Seq<char>>) -> Resolve {
    Resolve { params: ps, defs, visible: defs.len() as int, scope, subst: Seq::empty() }
}

/// A rule's expressions, each lowered where it stands: the priority with no
/// bindings in scope, each binding with those before it, the action and the
/// conditions with all of them.
pub open spec fn rule_exprs_lowered(ps: Seq<Seq<char>>, defs: Seq<Def>, rule: Rule, ir: IrRule) -> bool {
    let all = rule_scope(ps, defs, let_names(rule.lets@));
    &&& lowers(rule_scope(ps, defs, Seq::empty()), rule.priority, ir.priority)
    &&& forall|i: int|
        0 <= i < rule.lets@.len() ==> lowers(
            rule_scope(ps, defs, let_names(rule.lets@.take(i))),
            rule.lets@[i].value,
            #[trigger] ir.lets@[i],
        )
    &&& action_lowers(all, rule.action, ir.action)
    &&& forall|j: int|
        0 <= j < rule.requires@.len() ==> lowers(all, rule.requires@[j], #[trigger] ir.requires@[j])
}

// ---- when lowering succeeds ----

/// A name lowering can resolve: one that something binds, or a predicate of
/// no arguments.
pub open spec fn resolvable(c: Resolve, n: Seq<char>) -> bool {
    ||| is_bound_spec(c, n)
    ||| predicate_named(n) is Some && predicate_params(predicate_named(n).unwrap()).len() == 0
}

/// The names of a def's parameters, bound in order.
pub open spec fn named_like(bound: Seq<(String, IrExpr)>, dps: Seq<DefParam>) -> bool {
    &&& bound.len() == dps.len()
    &&& forall|i: int| 0 <= i < bound.len() ==> #[trigger] bound[i].0@ == dps[i].name.text@
}

/// Whether lowering `e` succeeds: every name resolves, every call has as
/// many arguments as its signature, and no hole is left from parsing.
pub open spec fn lowerable(c: Resolve, e: Expr) -> bool
    decreases c.visible, e, 2int,
{
    match e.kind {
        ExprKind::Int(_) => true,
        ExprKind::Float(_) => true,
        ExprKind::Ident(name) => resolvable(c, name.text@),
        ExprKind::Call(name, args) => {
            let n = name.text@;
            if n == COUNT@ {
                count_lowerable(c, e)
            } else if first_def(c, n, 0) >= 0 {
                def_lowerable(c, e, first_def(c, n, 0))
            } else if builtin_named(n) is Some {
                args_lowerable(c, args@, builtin_params(builtin_named(n).unwrap()))
            } else if predicate_named(n) is Some {
                args_lowerable(c, args@, predicate_params(predicate_named(n).unwrap()))
            } else {
                false
            }
        },
        ExprKind::Unary(_, a) => lowerable(c, *a),
        ExprKind::Binary(_, l, r) => lowerable(c, *l) && lowerable(c, *r),
        ExprKind::Error => false,
    }
}

/// Whether lowering the arguments against their parameters succeeds.
pub open spec fn args_lowerable(c: Resolve, args: Seq<Expr>, want: Seq<ParamSpec>) -> bool
    decreases c.visible, args, 1int,
{
    &&& args.len() == want.len()
    &&& args.len() > 0 ==> {
        &&& args_lowerable(
            c,
            args.subrange(0, args.len() - 1),
            want.subrange(0, want.len() - 1),
        )
        &&& arg_lowerable(c, args[args.len() - 1], want[want.len() - 1])
    }
}

/// Whether lowering each expression succeeds.
pub open spec fn all_lowerable(c: Resolve, args: Seq<Expr>) -> bool
    decreases c.visible, args, 1int,
{
    args.len() > 0 ==> all_lowerable(c, args.subrange(0, args.len() - 1)) && lowerable(
        c,
        args[args.len() - 1],
    )
}

/// Whether lowering one argument succeeds.
pub open spec fn arg_lowerable(c: Resolve, e: Expr, want: ParamSpec) -> bool
    decreases c.visible, e, 3int,
{
    if e.kind is Ident && !is_bound_spec(c, e.kind->Ident_0.text@) {
        let n = e.kind->Ident_0.text@;
        match want {
            ParamSpec::AnyOf(ds) => exists|k: int| 0 <= k < ds.len() && #[trigger] is_member(ds[k], n),
            ParamSpec::Exact(Type::Enum(d)) => is_member(d, n),
            ParamSpec::Exact(_) => lowerable(c, e),
        }
    } else {
        lowerable(c, e)
    }
}

/// Whether lowering a `count` succeeds.
pub open spec fn count_lowerable(c: Resolve, e: Expr) -> bool
    decreases c.visible, e, 1int,
{
    match e.kind {
        ExprKind::Call(_, args) => {
            &&& args@.len() == 1
            &&& {
                let a = args@[0];
                ||| a.kind is Ident && !is_bound_spec(c, a.kind->Ident_0.text@) && (is_member(
                    Domain::BuildingType,
                    a.kind->Ident_0.text@,
                ) || is_member(Domain::UnitType, a.kind->Ident_0.text@))
                ||| lowerable(c, a)
            }
        },
        _ => false,
    }
}

/// Whether inlining a call of the `k`th def succeeds: its arguments lower
/// where the call stands, and its body with its parameters bound.
pub open spec fn def_lowerable(c: Resolve, e: Expr, k: int) -> bool
    decreases c.visible, e, 1int,
{
    match e.kind {
        ExprKind::Call(_, args) => {
            &&& 0 <= k < c.visible
            &&& k < c.defs.len()
            &&& args@.len() == c.defs[k].params@.len()
            &&& all_lowerable(c, args@)
            &&& forall|bound: Seq<(String, IrExpr)>|
                #[trigger] named_like(bound, c.defs[k].params@) ==> lowerable(
                    inner(c, k, bound),
                    c.defs[k].body,
                )
        },
        _ => false,
    }
}

/// Whether lowering an action succeeds.
pub open spec fn action_lowerable(c: Resolve, a: Action) -> bool {
    &&& crate::env::is_action_spec(a.name.text@)
    &&& match factory_named(a.name.text@) {
        Some(i) => args_lowerable(c, a.args@, action_params_spec(i)),
        None => a.args@.len() == 0,
    }
}

/// Whether lowering a rule succeeds.
pub open spec fn rule_lowerable(ps: Seq<Seq<char>>, defs: Seq<Def>, rule: Rule) -> bool {
    let all = rule_scope(ps, defs, let_names(rule.lets@));
    &&& crate::env::is_category_spec(rule.category.text@)
    &&& lowerable(rule_scope(ps, defs, Seq::empty()), rule.priority)
    &&& forall|i: int|
        0 <= i < rule.lets@.len() ==> lowerable(
            rule_scope(ps, defs, let_names(rule.lets@.take(i))),
            #[trigger] rule.lets@[i].value,
        )
    &&& action_lowerable(all, rule.action)
    &&& forall|j: int| 0 <= j < rule.requires@.len() ==> lowerable(all, #[trigger] rule.requires@[j])
}

/// Each argument of a lowerable list lowers.
proof fn lemma_args_lowerable_at(c: Resolve, args: Seq<Expr>, want: Seq<ParamSpec>)
    requires
        args_lowerable(c, args, want),
    ensures
        forall|m: int| 0 <= m < args.len() ==> #[trigger] arg_lowerable(c, args[m], want[m]),
    decreases args.len(),
{
    if args.len() > 0 {
        let n = args.len() - 1;
        lemma_args_lowerable_at(c, args.subrange(0, n), want.subrange(0, n));
        assert forall|m: int| 0 <= m < args.len() implies #[trigger] arg_lowerable(c, args[m], want[m]) by {
            if m < n {
                assert(args.subrange(0, n)[m] == args[m]);
                assert(want.subrange(0, n)[m] == want[m]);
            }
        }
    }
}

/// Each expression of a lowerable list lowers.
proof fn lemma_all_lowerable_at(c: Resolve, args: Seq<Expr>)
    requires
        all_lowerable(c, args),
    ensures
        forall|m: int| 0 <= m < args.len() ==> #[trigger] lowerable(c, args[m]),
    decreases args.len(),
{
    if args.len() > 0 {
        let n = args.len() - 1;
        lemma_all_lowerable_at(c, args.subrange(0, n));
        assert forall|m: int| 0 <= m < args.len() implies #[trigger] lowerable(c, args[m]) by {
            if m < n {
                assert(args.subrange(0, n)[m] == args[m]);
            }
        }
    }
}

/// A lowered rule keeps what its source said, with its category and action
/// resolved to their indices in the tables, and one expression per binding and
/// per condition.
pub open spec fn rule_lowered(rule: Rule, ir: IrRule) -> bool {
    &&& ir.name@ == rule.name.text@
    &&& ir.category.0 < env::category_count()
    &&& env::category_spec(ir.category.0 as int) == rule.category.text@
    &&& forall|j: int| 0 <= j < ir.category.0 ==> env::category_spec(j) != rule.category.text@
    &&& ir.exclusive == rule.exclusive
    &&& match (rule.because, ir.because) {
        (Some(a), Some(b)) => a@ == b@,
        (None, None) => true,
        _ => false,
    }
    &&& ir.action.id.0 < env::action_count()
    &&& env::action_spec(ir.action.id.0 as int) == rule.action.name.text@
    &&& forall|j: int| 0 <= j < ir.action.id.0 ==> env::action_spec(j) != rule.action.name.text@
    &&& ir.action.args@.len() == rule.action.args@.len()
    &&& ir.action.span == rule.action.span
    &&& ir.lets@.len() == rule.lets@.len()
    &&& ir.requires@.len() == rule.requires@.len()
    &&& ir.span == rule.span
}

/// A parameter keeps its name, kind and place; its slot is its position.
pub open spec fn param_lowered(p: Param, ir: IrParam) -> bool {
    ir.name@ == p.name.text@ && ir.kind == p.kind && ir.span == p.span
}

/// A lowered rule set: its parameters and rules, each in source order.
pub open spec fn ast_lowered(ast: Ast, ir: Ir) -> bool {
    &&& ir.params@.len() == ast.params@.len()
    &&& forall|k: int| 0 <= k < ir.params@.len() ==> #[trigger] param_lowered(ast.params@[k], ir.params@[k])
    &&& ir.rules@.len() == ast.rules@.len()
    &&& forall|k: int| 0 <= k < ir.rules@.len() ==> #[trigger] rule_lowered(ast.rules@[k], ir.rules@[k])
    &&& forall|k: int|
        0 <= k < ir.rules@.len() ==> #[trigger] rule_exprs_lowered(
            param_names(ast.params@),
            ast.defs@,
            ast.rules@[k],
            ir.rules@[k],
        )
}

/// Lowers a rule set that checked.
pub(crate) fn lower(ast: &Ast) -> (r: Option<Ir>)
    ensures
        r matches Some(ir) ==> ast_lowered(*ast, ir),
        (forall|k: int|
            0 <= k < ast.rules@.len() ==> #[trigger] rule_lowerable(
                param_names(ast.params@),
                ast.defs@,
                ast.rules@[k],
            )) ==> r is Some,
{
    let ghost ok = forall|k: int|
        0 <= k < ast.rules@.len() ==> #[trigger] rule_lowerable(
            param_names(ast.params@),
            ast.defs@,
            ast.rules@[k],
        );
    let mut params: Vec<IrParam> = Vec::new();
    let mut names: Vec<String> = Vec::new();
    let mut i: usize = 0;
    while i < ast.params.len()
        invariant
            i <= ast.params@.len(),
            params@.len() == i,
            names@.len() == i,
            forall|k: int| 0 <= k < i ==> #[trigger] param_lowered(ast.params@[k], params@[k]),
            texts_of(names@) == param_names(ast.params@.subrange(0, i as int)),
        decreases ast.params@.len() - i,
    {
        let p = &ast.params[i];
        params.push(IrParam { name: p.name.text.clone(), kind: p.kind, span: p.span });
        let ghost before = names@;
        names.push(p.name.text.clone());
        proof {
            let want = param_names(ast.params@.subrange(0, i + 1));
            assert forall|k: int| 0 <= k < i + 1 implies texts_of(names@)[k] == want[k] by {
                if k < i {
                    assert(texts_of(before)[k] == param_names(ast.params@.subrange(0, i as int))[k]);
                }
            }
            assert(texts_of(names@) =~= want);
        }
        i += 1;
    }
    proof {
        assert(ast.params@.subrange(0, ast.params@.len() as int) =~= ast.params@);
    }
    let mut rules: Vec<IrRule> = Vec::new();
    let mut j: usize = 0;
    while j < ast.rules.len()
        invariant
            j <= ast.rules@.len(),
            rules@.len() == j,
            texts_of(names@) == param_names(ast.params@),
            ok == forall|k: int|
                0 <= k < ast.rules@.len() ==> #[trigger] rule_lowerable(
                    param_names(ast.params@),
                    ast.defs@,
                    ast.rules@[k],
                ),
            forall|k: int| 0 <= k < j ==> #[trigger] rule_lowered(ast.rules@[k], rules@[k]),
            forall|k: int|
                0 <= k < j ==> #[trigger] rule_exprs_lowered(
                    param_names(ast.params@),
                    ast.defs@,
                    ast.rules@[k],
                    rules@[k],
                ),
        decreases ast.rules@.len() - j,
    {
        let r = lower_rule(&ast.rules[j], &names, &ast.defs)?;
        rules.push(r);
        j += 1;
    }
    Some(Ir { rules, params })
}

fn lower_rule(rule: &Rule, params: &Vec<String>, defs: &Vec<Def>) -> (r: Option<IrRule>)
    ensures
        r matches Some(ir) ==> rule_lowered(*rule, ir),
        r matches Some(ir) ==> rule_exprs_lowered(texts_of(params@), defs@, *rule, ir),
        rule_lowerable(texts_of(params@), defs@, *rule) ==> r is Some,
{
    let ghost ps = texts_of(params@);
    let ghost ok = rule_lowerable(ps, defs@, *rule);
    let category = env::category_id(rule.category.text.as_str())?;
    let subst: Vec<(String, IrExpr)> = Vec::new();
    let empty: Vec<String> = Vec::new();

    // Only parameters are in scope: the checker has already rejected a
    // priority that mentions a binding or a predicate.
    let priority = {
        let env = Env { params, defs, visible: defs.len(), scope: &empty, subst: &subst };
        proof {
            assert(texts_of(empty@) =~= Seq::<Seq<char>>::empty());
            assert(resolve_of(&env) == rule_scope(ps, defs@, Seq::empty()));
        }
        lower_expr(&env, &rule.priority)?
    };

    // A binding may refer to earlier ones but not to itself or later ones, and
    // its slot is its position here.
    let mut scope: Vec<String> = Vec::new();
    let mut lets: Vec<IrExpr> = Vec::new();
    let mut i: usize = 0;
    while i < rule.lets.len()
        invariant
            i <= rule.lets@.len(),
            lets@.len() == i,
            scope@.len() == i,
            ps == texts_of(params@),
            ok == rule_lowerable(ps, defs@, *rule),
            subst@.len() == 0,
            texts_of(scope@) == let_names(rule.lets@.take(i as int)),
            forall|k: int|
                0 <= k < i ==> lowers(
                    rule_scope(ps, defs@, let_names(rule.lets@.take(k))),
                    rule.lets@[k].value,
                    #[trigger] lets@[k],
                ),
        decreases rule.lets@.len() - i,
    {
        let value = {
            let env = Env { params, defs, visible: defs.len(), scope: &scope, subst: &subst };
            proof {
                assert(subst@ =~= Seq::<(String, IrExpr)>::empty());
                assert(resolve_of(&env) == rule_scope(ps, defs@, let_names(rule.lets@.take(i as int))));
            }
            lower_expr(&env, &rule.lets[i].value)?
        };
        lets.push(value);
        let ghost before = scope@;
        scope.push(rule.lets[i].name.text.clone());
        proof {
            let want = let_names(rule.lets@.take(i + 1));
            assert forall|k: int| 0 <= k < i + 1 implies texts_of(scope@)[k] == want[k] by {
                if k < i {
                    assert(texts_of(before)[k] == let_names(rule.lets@.take(i as int))[k]);
                }
            }
            assert(texts_of(scope@) =~= want);
        }
        i += 1;
    }
    proof {
        assert(rule.lets@.take(rule.lets@.len() as int) =~= rule.lets@);
    }

    let env = Env { params, defs, visible: defs.len(), scope: &scope, subst: &subst };
    let ghost all = rule_scope(ps, defs@, let_names(rule.lets@));
    proof {
        assert(subst@ =~= Seq::<(String, IrExpr)>::empty());
        assert(resolve_of(&env) == all);
    }
    let action = lower_action(&env, &rule.action)?;
    let mut conditions: Vec<IrExpr> = Vec::new();
    let mut j: usize = 0;
    while j < rule.requires.len()
        invariant
            j <= rule.requires@.len(),
            conditions@.len() == j,
            env_ok(&env),
            resolve_of(&env) == all,
            ok == rule_lowerable(ps, defs@, *rule),
            ps == texts_of(params@),
            all == rule_scope(ps, defs@, let_names(rule.lets@)),
            forall|k: int| 0 <= k < j ==> lowers(all, rule.requires@[k], #[trigger] conditions@[k]),
        decreases rule.requires@.len() - j,
    {
        proof {
            if ok {
                assert(lowerable(all, rule.requires@[j as int]));
            }
        }
        conditions.push(lower_expr(&env, &rule.requires[j])?);
        j += 1;
    }

    Some(
        IrRule {
            name: rule.name.text.clone(),
            priority,
            category: CategoryId(category),
            exclusive: rule.exclusive,
            because: match &rule.because {
                Some(b) => Some(b.clone()),
                None => None,
            },
            action,
            lets,
            requires: conditions,
            span: rule.span,
        },
    )
}

fn lower_action(env: &Env, action: &Action) -> (r: Option<IrAction>)
    requires
        env_ok(env),
    ensures
        r matches Some(a) ==> action_lowers(resolve_of(env), *action, a),
        action_lowerable(resolve_of(env), *action) ==> r is Some,
        r matches Some(a) ==> {
            &&& a.id.0 < env::action_count()
            &&& env::action_spec(a.id.0 as int) == action.name.text@
            &&& forall|j: int| 0 <= j < a.id.0 ==> env::action_spec(j) != action.name.text@
            &&& a.args@.len() == action.args@.len()
            &&& a.span == action.span
        },
{
    let name = action.name.text.as_str();
    let id = env::action_id(name)?;
    let mut args: Vec<IrExpr> = Vec::new();
    match env::action_signature(name) {
        Some(sig) => {
            if action.args.len() != sig.params.len() {
                return None;
            }
            // Enum literals among the arguments resolve by parameter position,
            // the same rule as a predicate's.
            let ghost c = resolve_of(env);
            let ghost ws = params_view(sig.params@);
            let ghost ok = action_lowerable(c, *action);
            proof {
                if ok {
                    lemma_args_lowerable_at(c, action.args@, ws);
                }
            }
            let mut i: usize = 0;
            while i < action.args.len()
                invariant
                    i <= action.args@.len(),
                    action.args@.len() == sig.params@.len(),
                    args@.len() == i,
                    env_ok(env),
                    c == resolve_of(env),
                    ws == params_view(sig.params@),
                    ok == action_lowerable(c, *action),
                    ok ==> forall|m: int| 0 <= m < action.args@.len() ==> #[trigger] arg_lowerable(c, action.args@[m], ws[m]),
                    args_lower(c, action.args@.subrange(0, i as int), ws.subrange(0, i as int), args@),
                decreases action.args@.len() - i,
            {
                proof {
                    if ok {
                        assert(arg_lowerable(c, action.args@[i as int], ws[i as int]));
                        assert(ws[i as int] == param_view(sig.params@[i as int]));
                    }
                }
                let x = lower_arg(env, &action.args[i], &sig.params[i])?;
                let ghost before = args@;
                args.push(x);
                proof {
                    let a2 = action.args@.subrange(0, i + 1);
                    let w2 = ws.subrange(0, i + 1);
                    assert(a2.subrange(0, a2.len() - 1) =~= action.args@.subrange(0, i as int));
                    assert(w2.subrange(0, w2.len() - 1) =~= ws.subrange(0, i as int));
                    assert(args@.subrange(0, args@.len() - 1) =~= before);
                    assert(a2[a2.len() - 1] == action.args@[i as int]);
                    assert(w2[w2.len() - 1] == param_view(sig.params@[i as int]));
                }
                i += 1;
            }
            proof {
                assert(action.args@.subrange(0, action.args@.len() as int) =~= action.args@);
                assert(ws.subrange(0, ws.len() as int) =~= ws);
            }
        },
        None => {
            if action.args.len() > 0 {
                return None;
            }
        },
    }
    Some(IrAction { id: ActionId(id), args, span: action.span })
}

fn position(v: &Vec<String>, name: &str) -> (r: Option<usize>)
    ensures
        r matches Some(i) ==> i < v@.len() && v@[i as int]@ == name@,
        match r {
            Some(i) => first_from(texts_of(v@), name@, 0) == i,
            None => first_from(texts_of(v@), name@, 0) == -1,
        },
{
    let mut i: usize = 0;
    while i < v.len()
        invariant
            i <= v@.len(),
            first_from(texts_of(v@), name@, 0) == first_from(texts_of(v@), name@, i as int),
        decreases v@.len() - i,
    {
        if str_eq(v[i].as_str(), name) {
            return Some(i);
        }
        i += 1;
    }
    None
}

fn subst_position(v: &Vec<(String, IrExpr)>, name: &str) -> (r: Option<usize>)
    ensures
        r matches Some(i) ==> i < v@.len(),
        match r {
            Some(i) => first_bound(v@, name@, 0) == i,
            None => first_bound(v@, name@, 0) == -1,
        },
{
    let mut i: usize = 0;
    while i < v.len()
        invariant
            i <= v@.len(),
            first_bound(v@, name@, 0) == first_bound(v@, name@, i as int),
        decreases v@.len() - i,
    {
        if str_eq(v[i].0.as_str(), name) {
            return Some(i);
        }
        i += 1;
    }
    None
}

/// The first visible def named `name`.
fn def_position(env: &Env, name: &str) -> (r: Option<usize>)
    requires
        env_ok(env),
    ensures
        r matches Some(i) ==> i < env.visible,
        match r {
            Some(i) => first_def(resolve_of(env), name@, 0) == i,
            None => first_def(resolve_of(env), name@, 0) == -1,
        },
{
    let mut i: usize = 0;
    while i < env.visible
        invariant
            i <= env.visible,
            env_ok(env),
            first_def(resolve_of(env), name@, 0) == first_def(resolve_of(env), name@, i as int),
        decreases env.visible - i,
    {
        if str_eq(env.defs[i].name.text.as_str(), name) {
            return Some(i);
        }
        i += 1;
    }
    None
}

/// Whether a bare name is bound here — by the rule, by a def being inlined, or
/// by the doctrine — rather than free to be an enum literal.
fn is_bound(env: &Env, name: &str) -> (r: bool)
    ensures
        r == is_bound_spec(resolve_of(env), name@),
{
    position(env.scope, name).is_some() || subst_position(env.subst, name).is_some() || position(
        env.params,
        name,
    ).is_some()
}

// The measure is the visible defs, then the expression, then a rank: inlining a
// def shrinks the first, and everything else walks down the tree.

fn lower_expr(env: &Env, e: &Expr) -> (r: Option<IrExpr>)
    requires
        env_ok(env),
    ensures
        r matches Some(x) ==> lowers(resolve_of(env), *e, x),
        lowerable(resolve_of(env), *e) ==> r is Some,
    decreases env.visible, e, 2nat,
{
    let kind = match &e.kind {
        ExprKind::Int(n) => IrExprKind::Int(*n),
        ExprKind::Float(f) => IrExprKind::Float(f.clone()),
        ExprKind::Ident(name) => {
            return lower_ident(env, name.text.as_str(), e);
        },
        ExprKind::Call(name, args) => {
            let text = name.text.as_str();
            if str_eq(text, env::COUNT) {
                return lower_count(env, e);
            }
            if let Some(k) = def_position(env, text) {
                return inline_def(env, e, k);
            }
            if let Some(sig) = env::builtin(text) {
                let args = lower_args(env, e, &sig.params)?;
                return Some(IrExpr { kind: IrExprKind::Builtin(sig.id, args), span: e.span });
            }
            let sig = env::predicate(text)?;
            let args = lower_args(env, e, &sig.params)?;
            IrExprKind::Predicate(sig.id, args)
        },
        ExprKind::Unary(op, operand) => IrExprKind::Unary(*op, Box::new(lower_expr(env, operand)?)),
        ExprKind::Binary(op, l, r) => IrExprKind::Binary(
            *op,
            Box::new(lower_expr(env, l)?),
            Box::new(lower_expr(env, r)?),
        ),
        ExprKind::Error => {
            return None;
        },
    };
    Some(IrExpr { kind, span: e.span })
}

/// The arguments of the call `e`, against the parameters they fill.
#[verifier::loop_isolation(false)]
fn lower_args(env: &Env, e: &Expr, want: &Vec<ParamType>) -> (r: Option<Vec<IrExpr>>)
    requires
        env_ok(env),
    ensures
        r matches Some(v) ==> v@.len() == want@.len(),
        r matches Some(v) ==> (e.kind matches ExprKind::Call(_, args) && args_lower(
            resolve_of(env),
            args@,
            params_view(want@),
            v@,
        )),
        (e.kind matches ExprKind::Call(_, args) && args_lowerable(
            resolve_of(env),
            args@,
            params_view(want@),
        )) ==> r is Some,
    decreases env.visible, e, 1nat,
{
    let args = match &e.kind {
        ExprKind::Call(_, args) => args,
        _ => {
            return None;
        },
    };
    if args.len() != want.len() {
        return None;
    }
    let ghost c = resolve_of(env);
    let ghost ws = params_view(want@);
    let ghost ok = args_lowerable(c, args@, ws);
    proof {
        if ok {
            lemma_args_lowerable_at(c, args@, ws);
        }
    }
    let mut out: Vec<IrExpr> = Vec::new();
    let mut i: usize = 0;
    while i < args.len()
        invariant
            i <= args@.len(),
            args@.len() == want@.len(),
            out@.len() == i,
            env_ok(env),
            c == resolve_of(env),
            ws == params_view(want@),
            ok ==> forall|m: int| 0 <= m < args@.len() ==> #[trigger] arg_lowerable(c, args@[m], ws[m]),
            args_lower(c, args@.subrange(0, i as int), ws.subrange(0, i as int), out@),
        decreases args@.len() - i,
    {
        proof {
            if ok {
                assert(arg_lowerable(c, args@[i as int], ws[i as int]));
                assert(ws[i as int] == param_view(want@[i as int]));
            }
        }
        let x = lower_arg(env, &args[i], &want[i])?;
        let ghost before = out@;
        out.push(x);
        proof {
            let a2 = args@.subrange(0, i + 1);
            let w2 = ws.subrange(0, i + 1);
            assert(a2.subrange(0, a2.len() - 1) =~= args@.subrange(0, i as int));
            assert(w2.subrange(0, w2.len() - 1) =~= ws.subrange(0, i as int));
            assert(out@.subrange(0, out@.len() - 1) =~= before);
            assert(a2[a2.len() - 1] == args@[i as int]);
            assert(w2[w2.len() - 1] == param_view(want@[i as int]));
        }
        i += 1;
    }
    proof {
        assert(args@.subrange(0, args@.len() as int) =~= args@);
        assert(ws.subrange(0, ws.len() as int) =~= ws);
    }
    Some(out)
}

/// Substitutes the lowered arguments of the call `e` into the body of the
/// `k`th def, with only the defs before it visible.
#[verifier::loop_isolation(false)]
fn inline_def(env: &Env, e: &Expr, k: usize) -> (r: Option<IrExpr>)
    requires
        env_ok(env),
        k < env.visible,
    ensures
        r matches Some(x) ==> inline_lowers(resolve_of(env), *e, k as int, x),
        def_lowerable(resolve_of(env), *e, k as int) ==> r is Some,
    decreases env.visible, e, 1nat,
{
    let args = match &e.kind {
        ExprKind::Call(_, args) => args,
        _ => {
            return None;
        },
    };
    let def = &env.defs[k];
    if args.len() != def.params.len() {
        return None;
    }
    let ghost c = resolve_of(env);
    let ghost ok = def_lowerable(c, *e, k as int);
    proof {
        if ok {
            lemma_all_lowerable_at(c, args@);
        }
    }
    let mut bound: Vec<(String, IrExpr)> = Vec::new();
    let mut i: usize = 0;
    while i < args.len()
        invariant
            i <= args@.len(),
            args@.len() == def.params@.len(),
            env_ok(env),
            c == resolve_of(env),
            ok ==> forall|m: int| 0 <= m < args@.len() ==> #[trigger] lowerable(c, args@[m]),
            bound@.len() == i,
            forall|m: int| 0 <= m < i ==> #[trigger] bound@[m].0@ == def.params@[m].name.text@,
            binds(c, args@.subrange(0, i as int), def.params@.subrange(0, i as int), bound@),
        decreases args@.len() - i,
    {
        let value = lower_expr(env, &args[i])?;
        let ghost before = bound@;
        bound.push((def.params[i].name.text.clone(), value));
        proof {
            let a2 = args@.subrange(0, i + 1);
            let p2 = def.params@.subrange(0, i + 1);
            assert(a2.subrange(0, a2.len() - 1) =~= args@.subrange(0, i as int));
            assert(p2.subrange(0, p2.len() - 1) =~= def.params@.subrange(0, i as int));
            assert(bound@.subrange(0, bound@.len() - 1) =~= before);
            assert(a2[a2.len() - 1] == args@[i as int]);
            assert(p2[p2.len() - 1] == def.params@[i as int]);
        }
        i += 1;
    }
    proof {
        assert(args@.subrange(0, args@.len() as int) =~= args@);
        assert(def.params@.subrange(0, def.params@.len() as int) =~= def.params@);
    }
    let empty: Vec<String> = Vec::new();
    let inner_env = Env { params: env.params, defs: env.defs, visible: k, scope: &empty, subst: &bound };
    proof {
        assert(texts_of(empty@) =~= Seq::<Seq<char>>::empty());
        assert(resolve_of(&inner_env) == inner(c, k as int, bound@));
        assert(named_like(bound@, def.params@));
    }
    let r = lower_expr(&inner_env, &def.body);
    proof {
        assert(texts_of(empty@) =~= Seq::<Seq<char>>::empty());
        assert(resolve_of(&inner_env) == inner(c, k as int, bound@));
        assert(holds(bound@, args@.len() as int));
        assert(named_like(bound@, def.params@));
    }
    r
}

/// An argument in a position whose parameter type is known, which is what lets
/// a bare name resolve to an enum member.
#[verifier::loop_isolation(false)]
fn lower_arg(env: &Env, e: &Expr, want: &ParamType) -> (r: Option<IrExpr>)
    requires
        env_ok(env),
    ensures
        r matches Some(x) ==> arg_lowers(resolve_of(env), *e, param_view(*want), x),
        arg_lowerable(resolve_of(env), *e, param_view(*want)) ==> r is Some,
    decreases env.visible, e, 3nat,
{
    let name = match &e.kind {
        ExprKind::Ident(name) => name,
        _ => {
            return lower_expr(env, e);
        },
    };
    let text = name.text.as_str();
    if is_bound(env, text) {
        return lower_expr(env, e);
    }
    match want {
        ParamType::AnyOf(ds) => {
            let mut i: usize = 0;
            while i < ds.len()
                invariant
                    i <= ds@.len(),
                    forall|m: int| 0 <= m < i ==> !is_member(ds@[m], text@),
                decreases ds@.len() - i,
            {
                if let Some(index) = env::member_index(ds[i], text) {
                    let x = IrExpr { kind: IrExprKind::Member(ds[i], index), span: e.span };
                    proof {
                        let n = e.kind->Ident_0.text@;
                        assert(n == text@);
                        assert(member_lowered(ds@[i as int], n, x.kind));
                        assert(param_view(*want) == ParamSpec::AnyOf(ds@));
                        assert(!is_bound_spec(resolve_of(env), n));
                        assert(forall|m: int| 0 <= m < i ==> !is_member(ds@[m], n));
                        assert(member_of_first(ds@, n, x.kind));
                    }
                    return Some(x);
                }
                i += 1;
            }
            None
        },
        ParamType::Exact(Type::Enum(d)) => {
            let index = env::member_index(*d, text)?;
            Some(IrExpr { kind: IrExprKind::Member(*d, index), span: e.span })
        },
        // Not an enum position, so the argument is an ordinary expression.
        ParamType::Exact(_) => lower_expr(env, e),
    }
}

/// The one overloaded name: `count(powr)`, `count(e1)` and
/// `count(idle-ground-units)` are three different predicates, decided here
/// rather than at every consumer. `e` is the call.
fn lower_count(env: &Env, e: &Expr) -> (r: Option<IrExpr>)
    requires
        env_ok(env),
    ensures
        r matches Some(x) ==> count_lowers(resolve_of(env), *e, x),
        count_lowerable(resolve_of(env), *e) ==> r is Some,
    decreases env.visible, e, 1nat,
{
    let args = match &e.kind {
        ExprKind::Call(_, args) => args,
        _ => {
            return None;
        },
    };
    if args.len() != 1 {
        return None;
    }
    let arg = &args[0];
    if let ExprKind::Ident(name) = &arg.kind {
        let text = name.text.as_str();
        if !is_bound(env, text) {
            if let Some(index) = env::member_index(Domain::BuildingType, text) {
                let mut v: Vec<IrExpr> = Vec::new();
                v.push(IrExpr { kind: IrExprKind::Member(Domain::BuildingType, index), span: arg.span });
                return Some(IrExpr { kind: IrExprKind::Predicate(Predicate::BuildingCount, v), span: e.span });
            }
            if let Some(index) = env::member_index(Domain::UnitType, text) {
                let mut v: Vec<IrExpr> = Vec::new();
                v.push(IrExpr { kind: IrExprKind::Member(Domain::UnitType, index), span: arg.span });
                return Some(IrExpr { kind: IrExprKind::Predicate(Predicate::UnitCount, v), span: e.span });
            }
        }
    }
    // Otherwise it counts a collection, and the collection predicate is already
    // the whole expression — `count` itself disappears.
    lower_expr(env, arg)
}

/// A bare name: a binding, a def parameter, a doctrine parameter, or a
/// zero-argument predicate. `e` is the name's node.
fn lower_ident(env: &Env, name: &str, e: &Expr) -> (r: Option<IrExpr>)
    requires
        env_ok(env),
    ensures
        r matches Some(x) ==> ident_lowers(resolve_of(env), name@, e.span, x),
        resolvable(resolve_of(env), name@) ==> r is Some,
{
    if let Some(slot) = position(env.scope, name) {
        return Some(IrExpr { kind: IrExprKind::Binding(slot as u32), span: e.span });
    }
    if let Some(k) = subst_position(env.subst, name) {
        return Some(env.subst[k].1.duplicate());
    }
    if let Some(slot) = position(env.params, name) {
        return Some(IrExpr { kind: IrExprKind::Param(slot as u32), span: e.span });
    }
    let sig = env::predicate(name)?;
    if sig.params.len() > 0 {
        return None;
    }
    Some(IrExpr { kind: IrExprKind::Predicate(sig.id, Vec::new()), span: e.span })
}

} // verus!
