//! What a priority may read.
//!
//! The engine sorts on priority, so a priority must be decidable when the
//! doctrine lands, before the first tick: from parameters, literals and
//! builtins, never from game state. The checker enforces it by checking a
//! priority with the game state out of reach; this module proves that what
//! lowering then makes of such a priority reads no state.
//!
//! A `def` is checked once, where it is declared, with the game state in
//! reach, so a priority that calls one is outside what is shown here.
use crate::ast::{Ast, BinOp, Def, Expr, ExprKind, Param, UnOp};
use crate::env::{builtin_named, builtin_params, COUNT};
use crate::ir::{Ir, IrExpr, IrExprKind};
use crate::lower::{
    Resolve, arg_lowers, args_lower, ast_lowered, first_bound, first_def, first_from, lowers,
    param_names, rule_exprs_lowered, rule_scope,
};
use crate::typing::{
    Names, args_ok, call_spec, check_arg_spec, check_expr_spec, def_params_spec, defs_spec, lookup,
    lookup_def, params_spec, reserved_name, rule_ok, synth_spec, well_typed,
};
use crate::types::{ParamSpec, Type};
use vstd::prelude::*;

verus! {

/// Whether a lowered expression reads game state: a predicate, or a binding
/// (which holds one).
pub open spec fn reads_state(x: IrExpr) -> bool
    decreases x, 0int,
{
    match x.kind {
        IrExprKind::Predicate(_, _) => true,
        IrExprKind::Binding(_) => true,
        IrExprKind::Builtin(_, xs) => any_reads_state(xs@),
        IrExprKind::Unary(_, a) => reads_state(*a),
        IrExprKind::Binary(_, l, r) => reads_state(*l) || reads_state(*r),
        _ => false,
    }
}

/// Whether any of some lowered expressions reads game state.
pub open spec fn any_reads_state(xs: Seq<IrExpr>) -> bool
    decreases xs, 1int,
{
    xs.len() > 0 && (any_reads_state(xs.subrange(0, xs.len() - 1)) || reads_state(xs[xs.len() - 1]))
}

/// No name among `defs` is `n`.
pub open spec fn names_no_def(defs: Seq<Def>, n: Seq<char>) -> bool {
    forall|i: int| 0 <= i < defs.len() ==> (#[trigger] defs[i]).name.text@ != n
}

/// An expression that calls none of `defs`.
pub open spec fn calls_no_def(e: Expr, defs: Seq<Def>) -> bool
    decreases e, 0int,
{
    match e.kind {
        ExprKind::Call(name, args) => names_no_def(defs, name.text@) && all_call_no_def(args@, defs),
        ExprKind::Unary(_, a) => calls_no_def(*a, defs),
        ExprKind::Binary(_, l, r) => calls_no_def(*l, defs) && calls_no_def(*r, defs),
        _ => true,
    }
}

/// Expressions that call none of `defs`.
pub open spec fn all_call_no_def(args: Seq<Expr>, defs: Seq<Def>) -> bool
    decreases args, 1int,
{
    args.len() > 0 ==> all_call_no_def(args.subrange(0, args.len() - 1), defs) && calls_no_def(
        args[args.len() - 1],
        defs,
    )
}

/// The names a checker sees and the names lowering sees agree: the same
/// parameters in the same order, and no def the expression could call.
pub open spec fn agree(names: Names, c: Resolve) -> bool {
    &&& names.fixed
    &&& c.scope.len() == 0
    &&& c.subst.len() == 0
    &&& c.params.len() == names.params.len()
    &&& forall|i: int| 0 <= i < c.params.len() ==> #[trigger] c.params[i] == names.params[i].0
    &&& forall|n: Seq<char>| #[trigger] lookup_def(names.defs, n) is Some ==> !names_no_def(c.defs, n)
}

/// A name that `lookup` finds is in the list.
proof fn lemma_lookup_found(s: Seq<(Seq<char>, Type)>, n: Seq<char>)
    requires
        lookup(s, n) is Some,
    ensures
        exists|i: int| 0 <= i < s.len() && #[trigger] s[i].0 == n,
    decreases s.len(),
{
    if s[0].0 != n {
        lemma_lookup_found(s.drop_first(), n);
        let i = choose|i: int| 0 <= i < s.drop_first().len() && #[trigger] s.drop_first()[i].0 == n;
        assert(s[i + 1].0 == n);
    } else {
        assert(s[0].0 == n);
    }
}

/// A name in a list is found from any position before it.
proof fn lemma_first_found(s: Seq<Seq<char>>, n: Seq<char>, i: int, k: int)
    requires
        0 <= i <= k < s.len(),
        s[k] == n,
    ensures
        first_from(s, n, i) >= 0,
    decreases k - i,
{
    if s[i] != n {
        lemma_first_found(s, n, i + 1, k);
    }
}

/// A name no def has finds no def.
proof fn lemma_no_def_found(c: Resolve, n: Seq<char>, i: int)
    requires
        names_no_def(c.defs, n),
        0 <= i,
    ensures
        first_def(c, n, i) == -1,
    decreases c.visible - i,
{
    if i < c.visible && i < c.defs.len() {
        assert(c.defs[i].name.text@ != n);
        lemma_no_def_found(c, n, i + 1);
    }
}

/// A checked expression in a settled position, lowered, reads no state.
proof fn lemma_settled(names: Names, c: Resolve, e: Expr, x: IrExpr)
    requires
        agree(names, c),
        synth_spec(names, e).1,
        calls_no_def(e, c.defs),
        lowers(c, e, x),
    ensures
        !reads_state(x),
    decreases e, 1int,
{
    match e.kind {
        ExprKind::Ident(name) => {
            let n = name.text@;
            lemma_lookup_found(names.params, n);
            let k = choose|k: int| 0 <= k < names.params.len() && #[trigger] names.params[k].0 == n;
            assert(c.params[k] == names.params[k].0);
            lemma_first_found(c.params, n, 0, k);
            assert(first_from(c.scope, n, 0) == -1);
            assert(first_bound(c.subst, n, 0) == -1);
            assert(crate::lower::ident_lowers(c, n, e.span, x));
            assert(x.kind is Param);
        },
        ExprKind::Call(name, args) => {
            let n = name.text@;
            lemma_no_def_found(c, n, 0);
            if n != COUNT@ {
                assert(lookup_def(names.defs, n) is None);
                let b = builtin_named(n).unwrap();
                assert(call_spec(names, e, builtin_params(b), crate::env::builtin_ret(b)).1);
                assert(builtin_named(n) is Some);
                assert(first_def(c, n, 0) == -1);
                let xs = x.kind->Builtin_1;
                assert(args_lower(c, args@, builtin_params(b), xs@));
                assert(args@.subrange(0, args@.len() as int) =~= args@);
                assert(xs@.subrange(0, xs@.len() as int) =~= xs@);
                assert(builtin_params(b).subrange(0, builtin_params(b).len() as int) =~= builtin_params(b));
                lemma_settled_args(names, c, args@, builtin_params(b), xs@, args@.len() as int);
            }
        },
        ExprKind::Unary(op, a) => {
            if op == UnOp::Not {
                assert(check_expr_spec(names, *a, Type::Bool));
            }
            assert(synth_spec(names, *a).1);
            lemma_settled(names, c, *a, *x.kind->Unary_1);
        },
        ExprKind::Binary(op, l, r) => {
            if op == BinOp::And || op == BinOp::Or {
                assert(check_expr_spec(names, *l, Type::Bool));
                assert(check_expr_spec(names, *r, Type::Bool));
            }
            assert(synth_spec(names, *l).1);
            assert(synth_spec(names, *r).1);
            lemma_settled(names, c, *l, *x.kind->Binary_1);
            lemma_settled(names, c, *r, *x.kind->Binary_2);
        },
        _ => {},
    }
}

/// A parameter of a fixed type other than an enum.
pub open spec fn settled_param(p: ParamSpec) -> bool {
    p matches ParamSpec::Exact(t) && !(t is Enum)
}

/// The first `n` arguments of a settled builtin call, lowered, read no state.
proof fn lemma_settled_args(
    names: Names,
    c: Resolve,
    args: Seq<Expr>,
    want: Seq<ParamSpec>,
    xs: Seq<IrExpr>,
    n: int,
)
    requires
        agree(names, c),
        0 <= n <= args.len(),
        args.len() == want.len(),
        forall|i: int| 0 <= i < want.len() ==> settled_param(#[trigger] want[i]),
        args_ok(names, args, want, n),
        all_call_no_def(args.subrange(0, n), c.defs),
        args_lower(c, args.subrange(0, n), want.subrange(0, n), xs.subrange(0, n)),
        xs.len() == args.len(),
    ensures
        !any_reads_state(xs.subrange(0, n)),
    decreases args, 0int, n,
{
    if n > 0 {
        let a = args.subrange(0, n);
        let w = want.subrange(0, n);
        let v = xs.subrange(0, n);
        assert(a.subrange(0, n - 1) =~= args.subrange(0, n - 1));
        assert(w.subrange(0, n - 1) =~= want.subrange(0, n - 1));
        assert(v.subrange(0, n - 1) =~= xs.subrange(0, n - 1));
        lemma_settled_args(names, c, args, want, xs, n - 1);
        let t = want[n - 1]->Exact_0;
        assert(check_arg_spec(names, args[n - 1], want[n - 1]));
        assert(check_expr_spec(
            Names { params: names.params, defs: names.defs, scope: names.scope, fixed: true },
            args[n - 1],
            t,
        ));
        assert(arg_lowers(c, args[n - 1], want[n - 1], xs[n - 1]));
        lemma_settled(
            Names { params: names.params, defs: names.defs, scope: names.scope, fixed: true },
            c,
            args[n - 1],
            xs[n - 1],
        );
    }
}

/// The parameters a checker records are the declared names, in order.
proof fn lemma_params_names(decls: Seq<Param>, k: int)
    requires
        0 <= k <= decls.len(),
    ensures
        params_spec(decls, k).0.len() == k,
        forall|i: int|
            0 <= i < k ==> (#[trigger] params_spec(decls, k).0[i]).0 == decls[i].name.text@,
    decreases k,
{
    if k > 0 {
        lemma_params_names(decls, k - 1);
    }
}

/// Every def a checker records is declared under its name.
proof fn lemma_defs_declared(decls: Seq<Def>, ps: Seq<(Seq<char>, Type)>, k: int, n: Seq<char>)
    requires
        0 <= k <= decls.len(),
        lookup_def(defs_spec(decls, ps, k).0, n) is Some,
    ensures
        !names_no_def(decls, n),
    decreases k,
{
    if k > 0 {
        let (ds, ok) = defs_spec(decls, ps, k - 1);
        let d = decls[k - 1];
        if lookup_def(ds, n) is Some {
            lemma_defs_declared(decls, ps, k - 1, n);
        } else {
            let name = d.name.text@;
            if !(reserved_name(name) || lookup_def(ds, name) is Some || lookup(ps, name) is Some) {
                let (visible, types, pok) = def_params_spec(ps, d.params@, d.params@.len() as int);
                let (ret, bok) = synth_spec(
                    Names { params: visible, defs: ds, scope: Seq::empty(), fixed: false },
                    d.body,
                );
                lemma_lookup_def_push(ds, name, types, ret, n);
            }
            assert(decls[k - 1].name.text@ == n);
        }
    }
}

/// Looking up among defs with one more at the end finds it only by its name.
proof fn lemma_lookup_def_push(
    ds: Seq<(Seq<char>, Seq<Type>, Type)>,
    m: Seq<char>,
    ts: Seq<Type>,
    r: Type,
    n: Seq<char>,
)
    requires
        lookup_def(ds, n) is None,
        lookup_def(ds.push((m, ts, r)), n) is Some,
    ensures
        m == n,
    decreases ds.len(),
{
    let s2 = ds.push((m, ts, r));
    if ds.len() > 0 {
        assert(s2[0] == ds[0]);
        assert(s2.drop_first() =~= ds.drop_first().push((m, ts, r)));
        lemma_lookup_def_push(ds.drop_first(), m, ts, r, n);
    } else {
        assert(s2.drop_first().len() == 0);
        assert(lookup_def(s2.drop_first(), n) is None);
        assert(s2[0].0 == m);
    }
}

/// A priority is settled when the doctrine lands: in a rule set that checked,
/// the lowered priority of every rule whose priority calls no `def` reads no
/// game state — no predicate and no binding.
pub proof fn priorities_read_no_state(ast: Ast, ir: Ir)
    requires
        well_typed(ast),
        ast_lowered(ast, ir),
    ensures
        forall|k: int|
            0 <= k < ir.rules@.len() && calls_no_def(ast.rules@[k].priority, ast.defs@)
                ==> !reads_state(#[trigger] ir.rules@[k].priority),
{
    let (params, pok) = params_spec(ast.params@, ast.params@.len() as int);
    let (defs, dok) = defs_spec(ast.defs@, params, ast.defs@.len() as int);
    let names = Names { params, defs, scope: Seq::empty(), fixed: true };
    let c = rule_scope(param_names(ast.params@), ast.defs@, Seq::empty());
    lemma_params_names(ast.params@, ast.params@.len() as int);
    assert forall|n: Seq<char>| #[trigger] lookup_def(names.defs, n) is Some implies !names_no_def(
        c.defs,
        n,
    ) by {
        lemma_defs_declared(ast.defs@, params, ast.defs@.len() as int, n);
    }
    assert(agree(names, c));
    assert forall|k: int|
        0 <= k < ir.rules@.len() && calls_no_def(
            ast.rules@[k].priority,
            ast.defs@,
        ) implies !reads_state(#[trigger] ir.rules@[k].priority) by {
        assert(rule_ok(params, defs, ast.rules@[k]));
        assert(rule_exprs_lowered(param_names(ast.params@), ast.defs@, ast.rules@[k], ir.rules@[k]));
        assert(check_expr_spec(names, ast.rules@[k].priority, Type::Int));
        lemma_settled(names, c, ast.rules@[k].priority, ir.rules@[k].priority);
    }
}

} // verus!
