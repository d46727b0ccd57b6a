//! A rule set that checks lowers.
//!
//! `lower` resolves names with its own rules — a binding, then a def's
//! parameter, then a doctrine parameter, then a predicate — and gives up on a
//! name it cannot place. This module proves that it never gives up on a rule
//! set the typing rules accept, provided the parser left no hole in it.
use crate::ast::{Ast, Def, DefParam, Expr, ExprKind, Let, Param, Rule, UnOp, BinOp};
use crate::env::{
    action_count, action_params_spec, action_spec, all_domains, builtin_named, builtin_params,
    domains_matching, factory_named, first_factory, is_action_spec, is_member, plain_action_count,
    predicate_named, predicate_params, COUNT,
};
use crate::ir::IrExpr;
use crate::lower::{
    Resolve, all_lowerable, arg_lowerable, args_lowerable, count_lowerable, def_lowerable,
    first_bound, first_def, first_from, inner, is_bound_spec, let_names, lowerable, named_like,
    param_names, resolvable, rule_lowerable, rule_scope,
};
use crate::types::{ParamSpec, Type};
use crate::typing::{
    Names, args_ok, call_spec, check_arg_spec, check_expr_spec, count_spec, def_params_spec,
    defs_spec, fixed, ident_spec, lets_spec, lookup, lookup_def, params_spec,
    reserved_name, rule_ok, synth_spec, well_typed, action_ok, bind_ok,
};
use crate::grammar::{
    Field, RuleItem, TopItem, defs_in, picked, rule_built, rules_in, spells, spells_args, spells_def, spells_list, spells_program, spells_rule, spells_rule_item,
    spells_rule_items, spells_top, spells_tops, tag_at, binop_tag,
};
use crate::lexer::TokenSpec;
use vstd::prelude::*;

verus! {

// ---- no holes ----

/// An expression with no hole left by the parser.
pub open spec fn whole(e: Expr) -> bool
    decreases e, 0int,
{
    match e.kind {
        ExprKind::Error => false,
        ExprKind::Call(_, args) => all_whole(args@),
        ExprKind::Unary(_, a) => whole(*a),
        ExprKind::Binary(_, l, r) => whole(*l) && whole(*r),
        _ => true,
    }
}

/// Expressions with no hole left by the parser.
pub open spec fn all_whole(args: Seq<Expr>) -> bool
    decreases args, 1int,
{
    args.len() > 0 ==> all_whole(args.subrange(0, args.len() - 1)) && whole(args[args.len() - 1])
}

/// A rule with no hole left by the parser.
pub open spec fn rule_whole(r: Rule) -> bool {
    &&& whole(r.priority)
    &&& forall|i: int| 0 <= i < r.lets@.len() ==> whole(#[trigger] r.lets@[i].value)
    &&& forall|j: int| 0 <= j < r.requires@.len() ==> whole(#[trigger] r.requires@[j])
    &&& all_whole(r.action.args@)
}

/// A rule set with no hole left by the parser.
pub open spec fn holes_free(ast: Ast) -> bool {
    &&& forall|k: int| 0 <= k < ast.defs@.len() ==> whole(#[trigger] ast.defs@[k].body)
    &&& forall|k: int| 0 <= k < ast.rules@.len() ==> rule_whole(#[trigger] ast.rules@[k])
}

// ---- what the checker records ----

/// The doctrine parameters as the checker records them.
pub open spec fn checked_params(ast: Ast) -> Seq<(Seq<char>, Type)> {
    params_spec(ast.params@, ast.params@.len() as int).0
}

/// The first `k` defs as the checker records them.
pub open spec fn checked_defs(ast: Ast, k: int) -> Seq<(Seq<char>, Seq<Type>, Type)> {
    defs_spec(ast.defs@, checked_params(ast), k).0
}

/// What the body of the `k`th def sees while it is checked.
pub open spec fn def_names(ast: Ast, k: int) -> Names {
    Names {
        params: def_params_spec(
            checked_params(ast),
            ast.defs@[k].params@,
            ast.defs@[k].params@.len() as int,
        ).0,
        defs: checked_defs(ast, k),
        scope: Seq::empty(),
        fixed: false,
    }
}

/// The checker's names and lowering's names agree on `ast`: the same
/// doctrine parameters and defs, every name the checker can see is one
/// lowering can place, and nothing lowering places is a reserved name.
pub open spec fn agree(ast: Ast, names: Names, c: Resolve) -> bool {
    &&& c.defs == ast.defs@
    &&& c.params == param_names(ast.params@)
    &&& 0 <= c.visible <= ast.defs@.len()
    &&& names.defs == checked_defs(ast, c.visible)
    &&& forall|n: Seq<char>| #[trigger] lookup(names.params, n) is Some ==> is_bound_spec(c, n)
    &&& forall|n: Seq<char>|
        !names.fixed && #[trigger] lookup(names.scope, n) is Some ==> is_bound_spec(c, n)
    &&& forall|n: Seq<char>| #[trigger] is_bound_spec(c, n) ==> !reserved_name(n)
}

/// A member of any domain is a reserved name.
proof fn lemma_member_reserved(d: crate::types::Domain, n: Seq<char>)
    requires
        is_member(d, n),
    ensures
        reserved_name(n),
{
    lemma_matching_has(all_domains(), d, n);
}

/// A domain among `ds` with a member spelled `n` is counted by
/// `domains_matching`.
proof fn lemma_matching_has(ds: Seq<crate::types::Domain>, d: crate::types::Domain, n: Seq<char>)
    requires
        ds.contains(d),
        is_member(d, n),
    ensures
        domains_matching(ds, n).len() > 0,
    decreases ds.len(),
{
    if ds.last() != d {
        let i = choose|i: int| 0 <= i < ds.len() && ds[i] == d;
        assert(ds.drop_last()[i] == d);
        lemma_matching_has(ds.drop_last(), d, n);
        if is_member(ds.last(), n) {
            assert(domains_matching(ds, n).len() == domains_matching(ds.drop_last(), n).len() + 1);
        }
    }
}

/// A domain counted by `domains_matching` has a member spelled `n`.
proof fn lemma_matching_member(ds: Seq<crate::types::Domain>, n: Seq<char>)
    requires
        domains_matching(ds, n).len() > 0,
    ensures
        exists|k: int| 0 <= k < ds.len() && #[trigger] is_member(ds[k], n),
    decreases ds.len(),
{
    if is_member(ds.last(), n) {
        assert(is_member(ds[ds.len() - 1], n));
    } else {
        lemma_matching_member(ds.drop_last(), n);
        let k = choose|k: int| 0 <= k < ds.drop_last().len() && #[trigger] is_member(ds.drop_last()[k], n);
        assert(is_member(ds[k], n));
    }
}

/// A name that `lookup` finds is in the list.
proof fn lemma_lookup_in(s: Seq<(Seq<char>, Type)>, n: Seq<char>)
    requires
        lookup(s, n) is Some,
    ensures
        exists|i: int| 0 <= i < s.len() && #[trigger] s[i].0 == n,
    decreases s.len(),
{
    if s[0].0 != n {
        lemma_lookup_in(s.drop_first(), n);
        let i = choose|i: int| 0 <= i < s.drop_first().len() && #[trigger] s.drop_first()[i].0 == n;
        assert(s[i + 1].0 == n);
    } else {
        assert(s[0].0 == n);
    }
}

/// A name in a list is found from any position before it.
proof fn lemma_first_from(s: Seq<Seq<char>>, n: Seq<char>, i: int, k: int)
    requires
        0 <= i <= k < s.len(),
        s[k] == n,
    ensures
        first_from(s, n, i) >= 0,
    decreases k - i,
{
    if s[i] != n {
        lemma_first_from(s, n, i + 1, k);
    }
}

/// A name bound in a list is found from any position before it.
proof fn lemma_first_bound(s: Seq<(String, IrExpr)>, n: Seq<char>, i: int, k: int)
    requires
        0 <= i <= k < s.len(),
        s[k].0@ == n,
    ensures
        first_bound(s, n, i) >= 0,
    decreases k - i,
{
    if s[i].0@ != n {
        lemma_first_bound(s, n, i + 1, k);
    }
}

/// A name found from some position is at a position in the list.
proof fn lemma_first_from_in(s: Seq<Seq<char>>, n: Seq<char>, i: int)
    requires
        first_from(s, n, i) >= 0,
    ensures
        0 <= first_from(s, n, i) < s.len(),
        s[first_from(s, n, i)] == n,
    decreases s.len() - i,
{
    if 0 <= i < s.len() && s[i] != n {
        lemma_first_from_in(s, n, i + 1);
    }
}

/// A name bound from some position is at a position in the list.
proof fn lemma_first_bound_in(s: Seq<(String, IrExpr)>, n: Seq<char>, i: int)
    requires
        first_bound(s, n, i) >= 0,
    ensures
        0 <= first_bound(s, n, i) < s.len(),
        s[first_bound(s, n, i)].0@ == n,
    decreases s.len() - i,
{
    if 0 <= i < s.len() && s[i].0@ != n {
        lemma_first_bound_in(s, n, i + 1);
    }
}

/// The parameters the checker records are the declared names, in order, and
/// none of them is reserved when all were well declared.
proof fn lemma_params_recorded(decls: Seq<Param>, k: int)
    requires
        0 <= k <= decls.len(),
    ensures
        params_spec(decls, k).0.len() == k,
        forall|i: int|
            0 <= i < k ==> (#[trigger] params_spec(decls, k).0[i]).0 == decls[i].name.text@,
        params_spec(decls, k).1 ==> forall|i: int|
            0 <= i < k ==> !reserved_name(#[trigger] params_spec(decls, k).0[i].0),
    decreases k,
{
    if k > 0 {
        lemma_params_recorded(decls, k - 1);
        let (ps, ok) = params_spec(decls, k - 1);
        assert forall|i: int| 0 <= i < k implies (#[trigger] params_spec(decls, k).0[i]).0
            == decls[i].name.text@ by {
            if i < k - 1 {
                assert(params_spec(decls, k).0[i] == ps[i]);
            }
        }
        if params_spec(decls, k).1 {
            assert forall|i: int| 0 <= i < k implies !reserved_name(
                #[trigger] params_spec(decls, k).0[i].0,
            ) by {
                if i < k - 1 {
                    assert(params_spec(decls, k).0[i] == ps[i]);
                }
            }
        }
    }
}

/// A def the checker accepted: its name was new, its parameters unreserved,
/// and its body well typed where it was declared.
pub open spec fn def_accepted(ast: Ast, k: int) -> bool {
    let ps = checked_params(ast);
    let d = ast.defs@[k];
    let ds = checked_defs(ast, k);
    let (visible, types, pok) = def_params_spec(ps, d.params@, d.params@.len() as int);
    &&& !reserved_name(d.name.text@)
    &&& lookup_def(ds, d.name.text@) is None
    &&& lookup(ps, d.name.text@) is None
    &&& pok
    &&& synth_spec(def_names(ast, k), d.body).1
    &&& checked_defs(ast, k + 1) == ds.push((d.name.text@, types, synth_spec(def_names(ast, k), d.body).0))
}

/// When every def was accepted, each one was.
proof fn lemma_defs_accepted(ast: Ast, k: int)
    requires
        0 <= k <= ast.defs@.len(),
        defs_spec(ast.defs@, checked_params(ast), k).1,
    ensures
        forall|j: int| 0 <= j < k ==> #[trigger] def_accepted(ast, j),
    decreases k,
{
    if k > 0 {
        let ps = checked_params(ast);
        let (ds, ok) = defs_spec(ast.defs@, ps, k - 1);
        let d = ast.defs@[k - 1];
        let n = d.name.text@;
        if reserved_name(n) || lookup_def(ds, n) is Some || lookup(ps, n) is Some {
            assert(!defs_spec(ast.defs@, ps, k).1);
        }
        assert(ok);
        lemma_defs_accepted(ast, k - 1);
        assert(def_accepted(ast, k - 1));
    }
}

/// The checker's defs, up to `v`, are the declared ones in order: a name is
/// found among them exactly where lowering finds the first def so named, with
/// as many parameter types as the def has parameters, each an int or a
/// float.
proof fn lemma_defs_found(ast: Ast, c: Resolve, v: int, n: Seq<char>)
    requires
        c.defs == ast.defs@,
        0 <= v <= ast.defs@.len(),
        c.visible == v,
        forall|j: int| 0 <= j < ast.defs@.len() ==> #[trigger] def_accepted(ast, j),
    ensures
        (lookup_def(checked_defs(ast, v), n) is Some) == (first_def(c, n, 0) >= 0),
        lookup_def(checked_defs(ast, v), n) is Some ==> {
            let k = first_def(c, n, 0);
            let ts = lookup_def(checked_defs(ast, v), n).unwrap().0;
            &&& ts.len() == ast.defs@[k].params@.len()
            &&& forall|i: int| 0 <= i < ts.len() ==> (#[trigger] ts[i] == Type::Int || ts[i] == Type::Float)
        },
    decreases v,
{
    if v == 0 {
        assert(first_def(c, n, 0) == -1);
    } else {
        let c0 = Resolve { visible: v - 1, ..c };
        lemma_defs_found(ast, c0, v - 1, n);
        assert(def_accepted(ast, v - 1));
        let ds = checked_defs(ast, v - 1);
        let d = ast.defs@[v - 1];
        let (visible, types, pok) = def_params_spec(
            checked_params(ast),
            d.params@,
            d.params@.len() as int,
        );
        lemma_lookup_def_push(ds, d.name.text@, types, synth_spec(def_names(ast, v - 1), d.body).0, n);
        lemma_first_def_extend(c0, c, n, 0);
        lemma_def_param_types(checked_params(ast), d.params@, d.params@.len() as int);
    }
}

/// Looking up among defs with one more at the end.
proof fn lemma_lookup_def_push(
    ds: Seq<(Seq<char>, Seq<Type>, Type)>,
    m: Seq<char>,
    ts: Seq<Type>,
    r: Type,
    n: Seq<char>,
)
    ensures
        lookup_def(ds.push((m, ts, r)), n) == if lookup_def(ds, n) is Some {
            lookup_def(ds, n)
        } else if m == n {
            Some((ts, r))
        } else {
            None
        },
    decreases ds.len(),
{
    let s2 = ds.push((m, ts, r));
    if ds.len() > 0 {
        assert(s2[0] == ds[0]);
        assert(s2.drop_first() =~= ds.drop_first().push((m, ts, r)));
        lemma_lookup_def_push(ds.drop_first(), m, ts, r, n);
    } else {
        assert(s2.drop_first().len() == 0);
        assert(lookup_def(s2.drop_first(), n) is None);
        assert(s2[0].0 == m);
    }
}

/// One more def visible: the first def so named is the same, or, when there
/// was none, the new one if it is so named.
proof fn lemma_first_def_extend(c0: Resolve, c: Resolve, n: Seq<char>, i: int)
    requires
        c0.defs == c.defs,
        c0.visible + 1 == c.visible,
        c.visible <= c.defs.len(),
        0 <= i <= c0.visible,
    ensures
        first_def(c, n, i) == if first_def(c0, n, i) >= 0 {
            first_def(c0, n, i)
        } else if c.defs[c0.visible].name.text@ == n {
            c0.visible
        } else {
            -1
        },
    decreases c0.visible - i,
{
    if i < c0.visible && c.defs[i].name.text@ != n {
        lemma_first_def_extend(c0, c, n, i + 1);
    } else if i == c0.visible {
        assert(first_def(c, n, i + 1) == -1);
    }
}

/// A def found from some position is a visible def so named.
proof fn lemma_first_def_in(c: Resolve, n: Seq<char>, i: int)
    requires
        first_def(c, n, i) >= 0,
    ensures
        i <= first_def(c, n, i) < c.visible,
        first_def(c, n, i) < c.defs.len(),
        c.defs[first_def(c, n, i)].name.text@ == n,
    decreases c.visible - i,
{
    if 0 <= i < c.visible && i < c.defs.len() && c.defs[i].name.text@ != n {
        lemma_first_def_in(c, n, i + 1);
    }
}

/// A def's parameter types are its parameters' kinds, and what its body
/// sees is the doctrine's parameters followed by its own.
proof fn lemma_def_param_types(ps: Seq<(Seq<char>, Type)>, dps: Seq<DefParam>, k: int)
    requires
        0 <= k <= dps.len(),
    ensures
        def_params_spec(ps, dps, k).1.len() == k,
        forall|i: int|
            0 <= i < k ==> (#[trigger] def_params_spec(ps, dps, k).1[i] == Type::Int
                || def_params_spec(ps, dps, k).1[i] == Type::Float),
        def_params_spec(ps, dps, k).0.len() == ps.len() + k,
        forall|i: int|
            0 <= i < ps.len() ==> #[trigger] def_params_spec(ps, dps, k).0[i] == ps[i],
        forall|i: int|
            0 <= i < k ==> (#[trigger] def_params_spec(ps, dps, k).0[ps.len() + i]).0
                == dps[i].name.text@,
        def_params_spec(ps, dps, k).2 ==> forall|i: int|
            0 <= i < k ==> !reserved_name(#[trigger] dps[i].name.text@),
    decreases k,
{
    if k > 0 {
        lemma_def_param_types(ps, dps, k - 1);
        let (visible, types, ok) = def_params_spec(ps, dps, k - 1);
        assert forall|i: int| 0 <= i < k implies (#[trigger] def_params_spec(ps, dps, k).1[i]
            == Type::Int || def_params_spec(ps, dps, k).1[i] == Type::Float) by {
            if i < k - 1 {
                assert(def_params_spec(ps, dps, k).1[i] == types[i]);
            }
        }
        assert forall|i: int| 0 <= i < ps.len() implies #[trigger] def_params_spec(ps, dps, k).0[i]
            == ps[i] by {
            assert(def_params_spec(ps, dps, k).0[i] == visible[i]);
        }
        assert forall|i: int| 0 <= i < k implies (#[trigger] def_params_spec(
            ps,
            dps,
            k,
        ).0[ps.len() + i]).0 == dps[i].name.text@ by {
            if i < k - 1 {
                assert(def_params_spec(ps, dps, k).0[ps.len() + i] == visible[ps.len() + i]);
            }
        }
    }
}

// ---- what checks, lowers ----

/// The facts about a rule set that the lemmas below lean on: every def was
/// accepted, and no expression anywhere holds a hole.
pub open spec fn settled(ast: Ast) -> bool {
    &&& forall|j: int| 0 <= j < ast.defs@.len() ==> #[trigger] def_accepted(ast, j)
    &&& params_spec(ast.params@, ast.params@.len() as int).1
    &&& holes_free(ast)
}

/// How many arguments an expression passes, plus one; zero for a non-call.
pub open spec fn width(e: Expr) -> int {
    match e.kind {
        ExprKind::Call(_, args) => args@.len() as int + 1,
        _ => 0,
    }
}

/// The names a def's body sees agree with lowering's, whatever its
/// arguments lowered to.
proof fn lemma_agree_def(ast: Ast, c: Resolve, k: int, bound: Seq<(String, IrExpr)>)
    requires
        settled(ast),
        c.defs == ast.defs@,
        c.params == param_names(ast.params@),
        0 <= k < c.visible <= ast.defs@.len(),
        named_like(bound, ast.defs@[k].params@),
    ensures
        agree(ast, def_names(ast, k), inner(c, k, bound)),
{
    let ps = checked_params(ast);
    let dps = ast.defs@[k].params@;
    let names = def_names(ast, k);
    let c2 = inner(c, k, bound);
    lemma_params_recorded(ast.params@, ast.params@.len() as int);
    lemma_def_param_types(ps, dps, dps.len() as int);
    assert(def_accepted(ast, k));
    assert forall|n: Seq<char>| #[trigger] lookup(names.params, n) is Some implies is_bound_spec(
        c2,
        n,
    ) by {
        lemma_lookup_in(names.params, n);
        let i = choose|i: int| 0 <= i < names.params.len() && #[trigger] names.params[i].0 == n;
        if i < ps.len() {
            assert(names.params[i] == ps[i]);
            assert(c2.params[i] == ast.params@[i].name.text@);
            lemma_first_from(c2.params, n, 0, i);
        } else {
            let m = i - ps.len();
            assert(names.params[ps.len() + m].0 == dps[m].name.text@);
            assert(bound[m].0@ == dps[m].name.text@);
            lemma_first_bound(bound, n, 0, m);
        }
    }
    assert forall|n: Seq<char>| #[trigger] is_bound_spec(c2, n) implies !reserved_name(n) by {
        assert(first_from(c2.scope, n, 0) == -1);
        if first_bound(bound, n, 0) >= 0 {
            lemma_first_bound_in(bound, n, 0);
            let m = first_bound(bound, n, 0);
            assert(bound[m].0@ == dps[m].name.text@);
        } else {
            lemma_first_from_in(c2.params, n, 0);
            let m = first_from(c2.params, n, 0);
            assert(ps[m].0 == ast.params@[m].name.text@);
        }
    }
}

/// A well-typed expression whose names agree lowers.
proof fn lemma_lowerable(ast: Ast, names: Names, c: Resolve, e: Expr)
    requires
        settled(ast),
        agree(ast, names, c),
        synth_spec(names, e).1,
        whole(e),
    ensures
        lowerable(c, e),
    decreases c.visible, e, width(e),
{
    match e.kind {
        ExprKind::Ident(name) => {
            let n = name.text@;
            assert(ident_spec(names, n).1);
            if !names.fixed && lookup(names.scope, n) is Some {
                assert(is_bound_spec(c, n));
            } else if lookup(names.params, n) is Some {
                assert(is_bound_spec(c, n));
            }
            assert(resolvable(c, n));
            assert(e.kind == ExprKind::Ident(name));
            assert(lowerable(c, e));
        },
        ExprKind::Call(name, args) => {
            let n = name.text@;
            if n == COUNT@ {
                let a = args@[0];
                assert(count_spec(names, e).1);
                if a.kind is Ident && (is_member(crate::types::Domain::BuildingType, a.kind->Ident_0.text@)
                    || is_member(crate::types::Domain::UnitType, a.kind->Ident_0.text@)) {
                    if is_member(crate::types::Domain::BuildingType, a.kind->Ident_0.text@) {
                        lemma_member_reserved(crate::types::Domain::BuildingType, a.kind->Ident_0.text@);
                    } else {
                        lemma_member_reserved(crate::types::Domain::UnitType, a.kind->Ident_0.text@);
                    }
                    assert(!is_bound_spec(c, a.kind->Ident_0.text@));
                    assert(count_lowerable(c, e));
                } else {
                    assert(synth_spec(names, a).1);
                    lemma_whole_at(args@);
                    lemma_lowerable(ast, names, c, a);
                    assert(count_lowerable(c, e));
                }
            } else {
                lemma_defs_found(ast, c, c.visible, n);
                if first_def(c, n, 0) >= 0 {
                    let k = first_def(c, n, 0);
                    lemma_first_def_in(c, n, 0);
                    let sig = lookup_def(names.defs, n).unwrap();
                    let want = sig.0.map_values(|t: Type| ParamSpec::Exact(t));
                    assert(call_spec(names, e, want, sig.1).1);
                    assert(args@.subrange(0, args@.len() as int) =~= args@);
                    lemma_all_typed(ast, names, c, args@, sig.0, args@.len() as int);
                    assert forall|bound: Seq<(String, IrExpr)>|
                        #[trigger] named_like(bound, c.defs[k].params@) implies lowerable(
                        inner(c, k, bound),
                        c.defs[k].body,
                    ) by {
                        lemma_agree_def(ast, c, k, bound);
                        assert(def_accepted(ast, k));
                        lemma_lowerable(ast, def_names(ast, k), inner(c, k, bound), c.defs[k].body);
                    }
                    assert(def_lowerable(c, e, k));
                } else if builtin_named(n) is Some {
                    let b = builtin_named(n).unwrap();
                    assert(call_spec(names, e, builtin_params(b), crate::env::builtin_ret(b)).1);
                    lemma_args_typed(ast, names, c, args@, builtin_params(b), args@.len() as int);
                    assert(args@.subrange(0, args@.len() as int) =~= args@);
                    assert(builtin_params(b).subrange(0, args@.len() as int) =~= builtin_params(b));
                } else {
                    let p = predicate_named(n).unwrap();
                    assert(call_spec(names, e, predicate_params(p), crate::env::predicate_ret(p)).1);
                    lemma_args_typed(ast, names, c, args@, predicate_params(p), args@.len() as int);
                    assert(args@.subrange(0, args@.len() as int) =~= args@);
                    assert(predicate_params(p).subrange(0, args@.len() as int) =~= predicate_params(p));
                }
            }
        },
        ExprKind::Unary(op, a) => {
            if op == UnOp::Not {
                assert(check_expr_spec(names, *a, Type::Bool));
            }
            assert(synth_spec(names, *a).1);
            lemma_lowerable(ast, names, c, *a);
        },
        ExprKind::Binary(op, l, r) => {
            if op == BinOp::And || op == BinOp::Or {
                assert(check_expr_spec(names, *l, Type::Bool));
                assert(check_expr_spec(names, *r, Type::Bool));
            }
            assert(synth_spec(names, *l).1);
            assert(synth_spec(names, *r).1);
            lemma_lowerable(ast, names, c, *l);
            lemma_lowerable(ast, names, c, *r);
        },
        _ => {},
    }
}

/// The first `n` arguments of a well-typed call lower against their
/// parameters.
proof fn lemma_args_typed(
    ast: Ast,
    names: Names,
    c: Resolve,
    args: Seq<Expr>,
    want: Seq<ParamSpec>,
    n: int,
)
    requires
        settled(ast),
        agree(ast, names, c),
        0 <= n <= args.len(),
        args.len() == want.len(),
        args_ok(names, args, want, n),
        all_whole(args),
    ensures
        args_lowerable(c, args.subrange(0, n), want.subrange(0, n)),
    decreases c.visible, args, n,
{
    if n > 0 {
        lemma_args_typed(ast, names, c, args, want, n - 1);
        lemma_whole_at(args);
        lemma_arg_typed(ast, names, c, args[n - 1], want[n - 1]);
        let a = args.subrange(0, n);
        let w = want.subrange(0, n);
        assert(a.subrange(0, n - 1) =~= args.subrange(0, n - 1));
        assert(w.subrange(0, n - 1) =~= want.subrange(0, n - 1));
    }
}

/// The first `n` arguments of a well-typed def call lower.
proof fn lemma_all_typed(ast: Ast, names: Names, c: Resolve, args: Seq<Expr>, ts: Seq<Type>, n: int)
    requires
        settled(ast),
        agree(ast, names, c),
        0 <= n <= args.len(),
        args.len() == ts.len(),
        forall|i: int| 0 <= i < ts.len() ==> (#[trigger] ts[i] == Type::Int || ts[i] == Type::Float),
        args_ok(names, args, ts.map_values(|t: Type| ParamSpec::Exact(t)), n),
        all_whole(args),
    ensures
        all_lowerable(c, args.subrange(0, n)),
    decreases c.visible, args, n,
{
    if n > 0 {
        lemma_all_typed(ast, names, c, args, ts, n - 1);
        lemma_whole_at(args);
        let want = ts.map_values(|t: Type| ParamSpec::Exact(t));
        assert(want[n - 1] == ParamSpec::Exact(ts[n - 1]));
        assert(ts[n - 1] == Type::Int || ts[n - 1] == Type::Float);
        lemma_arg_typed(ast, names, c, args[n - 1], want[n - 1]);
        let a = args.subrange(0, n);
        assert(a.subrange(0, n - 1) =~= args.subrange(0, n - 1));
    }
}

/// A well-typed argument lowers against its parameter.
proof fn lemma_arg_typed(ast: Ast, names: Names, c: Resolve, e: Expr, want: ParamSpec)
    requires
        settled(ast),
        agree(ast, names, c),
        check_arg_spec(names, e, want),
        whole(e),
    ensures
        arg_lowerable(c, e, want),
    decreases c.visible, e, width(e) + 1,
{
    match want {
        ParamSpec::AnyOf(ds) => {
            let n = e.kind->Ident_0.text@;
            lemma_matching_member(ds, n);
            let k = choose|k: int| 0 <= k < ds.len() && #[trigger] is_member(ds[k], n);
            lemma_member_reserved(ds[k], n);
        },
        ParamSpec::Exact(t) => {
            if t is Enum && e.kind is Ident {
                lemma_member_reserved(t->Enum_0, e.kind->Ident_0.text@);
            } else {
                let f = fixed(names);
                assert(synth_spec(f, e).1);
                lemma_lowerable(ast, f, c, e);
            }
        },
    }
}

/// Each expression of a list with no holes has none.
proof fn lemma_whole_at(args: Seq<Expr>)
    requires
        all_whole(args),
    ensures
        forall|m: int| 0 <= m < args.len() ==> #[trigger] whole(args[m]),
    decreases args.len(),
{
    if args.len() > 0 {
        let n = args.len() - 1;
        lemma_whole_at(args.subrange(0, n));
        assert forall|m: int| 0 <= m < args.len() implies #[trigger] whole(args[m]) by {
            if m < n {
                assert(args.subrange(0, n)[m] == args[m]);
            }
        }
    }
}

/// The names a rule's expressions see agree with lowering's: the doctrine's
/// parameters, every def, and bindings recorded under the names lowering
/// uses, none of them reserved.
proof fn lemma_agree_rule(
    ast: Ast,
    scope: Seq<(Seq<char>, Type)>,
    scope_names: Seq<Seq<char>>,
    fixed_phase: bool,
)
    requires
        settled(ast),
        scope.len() == scope_names.len(),
        forall|i: int| 0 <= i < scope.len() ==> #[trigger] scope[i].0 == scope_names[i],
        forall|i: int| 0 <= i < scope.len() ==> !reserved_name(#[trigger] scope_names[i]),
    ensures
        agree(
            ast,
            Names {
                params: checked_params(ast),
                defs: checked_defs(ast, ast.defs@.len() as int),
                scope,
                fixed: fixed_phase,
            },
            rule_scope(param_names(ast.params@), ast.defs@, scope_names),
        ),
{
    let ps = checked_params(ast);
    let c = rule_scope(param_names(ast.params@), ast.defs@, scope_names);
    lemma_params_recorded(ast.params@, ast.params@.len() as int);
    assert forall|n: Seq<char>| #[trigger] lookup(ps, n) is Some implies is_bound_spec(c, n) by {
        lemma_lookup_in(ps, n);
        let i = choose|i: int| 0 <= i < ps.len() && #[trigger] ps[i].0 == n;
        assert(c.params[i] == ast.params@[i].name.text@);
        lemma_first_from(c.params, n, 0, i);
    }
    assert forall|n: Seq<char>| #[trigger] lookup(scope, n) is Some implies is_bound_spec(c, n) by {
        lemma_lookup_in(scope, n);
        let i = choose|i: int| 0 <= i < scope.len() && #[trigger] scope[i].0 == n;
        lemma_first_from(c.scope, n, 0, i);
    }
    assert forall|n: Seq<char>| #[trigger] is_bound_spec(c, n) implies !reserved_name(n) by {
        assert(first_bound(c.subst, n, 0) == -1);
        if first_from(c.scope, n, 0) >= 0 {
            lemma_first_from_in(c.scope, n, 0);
        } else {
            lemma_first_from_in(c.params, n, 0);
            let m = first_from(c.params, n, 0);
            assert(ps[m].0 == ast.params@[m].name.text@);
        }
    }
}

/// The bindings of a rule whose bindings check: each recorded under its own
/// name, none reserved, and each value well typed with those before it in
/// scope.
proof fn lemma_lets_recorded(
    ps: Seq<(Seq<char>, Type)>,
    ds: Seq<(Seq<char>, Seq<Type>, Type)>,
    lets: Seq<Let>,
    n: int,
)
    requires
        0 <= n <= lets.len(),
        lets_spec(ps, ds, lets, n).1,
    ensures
        lets_spec(ps, ds, lets, n).0.len() == n,
        forall|i: int|
            0 <= i < n ==> (#[trigger] lets_spec(ps, ds, lets, n).0[i]).0 == lets[i].name.text@,
        forall|i: int| 0 <= i < n ==> !reserved_name(#[trigger] lets[i].name.text@),
        forall|i: int|
            0 <= i < n ==> lets_spec(ps, ds, lets, i).0 == #[trigger] lets_spec(ps, ds, lets, n).0.take(i),
        forall|i: int|
            0 <= i < n ==> synth_spec(
                Names { params: ps, defs: ds, scope: lets_spec(ps, ds, lets, i).0, fixed: false },
                #[trigger] lets[i].value,
            ).1,
    decreases n,
{
    if n > 0 {
        let (scope, ok) = lets_spec(ps, ds, lets, n - 1);
        let b = lets[n - 1];
        assert(bind_ok(ps, scope, b.name.text@));
        lemma_lets_recorded(ps, ds, lets, n - 1);
        let full = lets_spec(ps, ds, lets, n).0;
        assert(full == scope.push((b.name.text@, synth_spec(
            Names { params: ps, defs: ds, scope, fixed: false },
            b.value,
        ).0)));
        assert forall|i: int| 0 <= i < n implies (#[trigger] lets_spec(ps, ds, lets, n).0[i]).0
            == lets[i].name.text@ by {
            if i < n - 1 {
                assert(full[i] == scope[i]);
            }
        }
        assert forall|i: int| 0 <= i < n implies lets_spec(ps, ds, lets, i).0 == #[trigger] lets_spec(
            ps,
            ds,
            lets,
            n,
        ).0.take(i) by {
            if i < n - 1 {
                assert(full.take(i) =~= scope.take(i));
            } else {
                assert(full.take(i) =~= scope);
            }
        }
    }
}

/// A factory-built action's index names it.
proof fn lemma_factory_is_action(n: Seq<char>, i: int)
    requires
        first_factory(n, i) is Some,
    ensures
        is_action_spec(n),
    decreases action_count() - i,
{
    if !(i < plain_action_count() || i >= action_count()) && action_spec(i) != n {
        lemma_factory_is_action(n, i + 1);
    }
}

/// Every rule of a rule set that checks, and that the parser left without a
/// hole, lowers.
pub proof fn checked_rules_lower(ast: Ast)
    requires
        well_typed(ast),
        holes_free(ast),
    ensures
        forall|k: int|
            0 <= k < ast.rules@.len() ==> #[trigger] rule_lowerable(
                param_names(ast.params@),
                ast.defs@,
                ast.rules@[k],
            ),
{
    let ps = checked_params(ast);
    let ds = checked_defs(ast, ast.defs@.len() as int);
    lemma_defs_accepted(ast, ast.defs@.len() as int);
    assert(settled(ast));
    assert forall|k: int| 0 <= k < ast.rules@.len() implies #[trigger] rule_lowerable(
        param_names(ast.params@),
        ast.defs@,
        ast.rules@[k],
    ) by {
        let rule = ast.rules@[k];
        assert(rule_ok(ps, ds, rule));
        assert(rule_whole(rule));
        let lets = rule.lets@;
        let n = lets.len() as int;
        let (scope, lets_ok) = lets_spec(ps, ds, lets, n);
        lemma_lets_recorded(ps, ds, lets, n);
        // The priority, with no binding in scope.
        lemma_agree_rule(ast, Seq::empty(), Seq::empty(), true);
        assert(Seq::<Seq<char>>::empty() =~= let_names(lets.take(0)));
        let fixed_names = Names { params: ps, defs: ds, scope: Seq::empty(), fixed: true };
        assert(check_expr_spec(fixed_names, rule.priority, Type::Int));
        lemma_lowerable(ast, fixed_names, rule_scope(param_names(ast.params@), ast.defs@, Seq::empty()), rule.priority);
        // Each binding, with those before it.
        assert forall|i: int| 0 <= i < n implies lowerable(
            rule_scope(param_names(ast.params@), ast.defs@, let_names(lets.take(i))),
            #[trigger] lets[i].value,
        ) by {
            let si = lets_spec(ps, ds, lets, i).0;
            assert(si == scope.take(i));
            assert forall|m: int| 0 <= m < si.len() implies #[trigger] si[m].0 == let_names(lets.take(i))[m] by {
                assert(si[m] == scope[m]);
            }
            assert forall|m: int| 0 <= m < si.len() implies !reserved_name(#[trigger] let_names(lets.take(i))[m]) by {
                assert(let_names(lets.take(i))[m] == lets[m].name.text@);
            }
            lemma_agree_rule(ast, si, let_names(lets.take(i)), false);
            assert(rule_whole(rule));
            assert(whole(lets[i].value));
            lemma_lowerable(
                ast,
                Names { params: ps, defs: ds, scope: si, fixed: false },
                rule_scope(param_names(ast.params@), ast.defs@, let_names(lets.take(i))),
                lets[i].value,
            );
        }
        // The conditions and the action, with every binding.
        assert forall|m: int| 0 <= m < scope.len() implies #[trigger] scope[m].0 == let_names(lets)[m] by {}
        assert forall|m: int| 0 <= m < scope.len() implies !reserved_name(#[trigger] let_names(lets)[m]) by {}
        lemma_agree_rule(ast, scope, let_names(lets), false);
        let tick = Names { params: ps, defs: ds, scope, fixed: false };
        let all = rule_scope(param_names(ast.params@), ast.defs@, let_names(lets));
        assert forall|j: int| 0 <= j < rule.requires@.len() implies lowerable(all, #[trigger] rule.requires@[j]) by {
            assert(check_expr_spec(tick, rule.requires@[j], Type::Bool));
            assert(whole(rule.requires@[j]));
            lemma_lowerable(ast, tick, all, rule.requires@[j]);
        }
        assert(action_ok(tick, rule.action));
        match factory_named(rule.action.name.text@) {
            Some(i) => {
                lemma_factory_is_action(rule.action.name.text@, plain_action_count());
                lemma_args_typed(ast, tick, all, rule.action.args@, action_params_spec(i), rule.action.args@.len() as int);
                assert(rule.action.args@.subrange(0, rule.action.args@.len() as int) =~= rule.action.args@);
                assert(action_params_spec(i).subrange(0, rule.action.args@.len() as int) =~= action_params_spec(i));
            },
            None => {},
        }
        assert(lets.take(n) =~= lets);
    }
}

// ---- what parses has no holes ----

/// What the grammar writes has no hole.
proof fn lemma_spells_whole(t: Seq<TokenSpec>, level: int, i: int, j: int, e: Expr)
    requires
        spells(t, level, i, j, e),
    ensures
        whole(e),
    decreases e, j - i, 7 - level,
{
    if level == 6 {
        if let ExprKind::Call(name, args) = e.kind {
            if spells_args(t, i + 2, j - 1, args@) && !(i + 2 <= j && tag_at(t, i) == crate::token::Tag::LParen) {
                lemma_args_whole(t, i + 2, j - 1, args@);
            } else {
                lemma_spells_whole(t, 0, i + 1, j - 1, e);
            }
        } else if i + 2 <= j && tag_at(t, i) == crate::token::Tag::LParen && tag_at(t, j - 1)
            == crate::token::Tag::RParen && spells(t, 0, i + 1, j - 1, e) {
            lemma_spells_whole(t, 0, i + 1, j - 1, e);
        }
    } else if level == 5 {
        if spells(t, 6, i, j, e) {
            lemma_spells_whole(t, 6, i, j, e);
        } else if let ExprKind::Unary(op, x) = e.kind {
            lemma_spells_whole(t, 5, i + 1, j, *x);
        }
    } else if spells(t, level + 1, i, j, e) {
        lemma_spells_whole(t, level + 1, i, j, e);
    } else if let ExprKind::Binary(op, l, r) = e.kind {
        let k = choose|k: int|
            i < k < j && spells(t, level, i, k, *l) && #[trigger] tag_at(t, k) == binop_tag(op)
                && spells(t, level + 1, k + 1, j, *r);
        lemma_spells_whole(t, level, i, k, *l);
        lemma_spells_whole(t, level + 1, k + 1, j, *r);
    }
}

/// Arguments the grammar writes have no hole.
proof fn lemma_args_whole(t: Seq<TokenSpec>, i: int, j: int, args: Seq<Expr>)
    requires
        spells_args(t, i, j, args),
    ensures
        all_whole(args),
    decreases args, 1int, 0int,
{
    if spells_list(t, i, j, args) {
        lemma_list_whole(t, i, j, args);
    } else {
        lemma_list_whole(t, i, j - 1, args);
    }
}

/// A list the grammar writes has no hole.
proof fn lemma_list_whole(t: Seq<TokenSpec>, i: int, j: int, args: Seq<Expr>)
    requires
        spells_list(t, i, j, args),
    ensures
        all_whole(args),
    decreases args, 0int, 0int,
{
    if args.len() == 1 {
        lemma_spells_whole(t, 0, i, j, args[0]);
        assert(all_whole(args.subrange(0, 0)));
    } else if args.len() > 1 {
        let k = choose|k: int|
            i < k < j && spells_list(t, i, k, args.subrange(0, args.len() - 1))
                && #[trigger] tag_at(t, k) == crate::token::Tag::Comma && spells(
                t,
                0,
                k + 1,
                j,
                args[args.len() - 1],
            );
        lemma_list_whole(t, i, k, args.subrange(0, args.len() - 1));
        lemma_spells_whole(t, 0, k + 1, j, args[args.len() - 1]);
    }
}

/// Each field of one kind was written somewhere in the body.
proof fn lemma_picked_in(items: Seq<RuleItem>, f: Field, m: int)
    requires
        0 <= m < picked(items, f).len(),
    ensures
        exists|j: int| 0 <= j < items.len() && #[trigger] items[j] == picked(items, f)[m],
    decreases items.len(),
{
    let rest = picked(items.drop_last(), f);
    if m < rest.len() {
        lemma_picked_in(items.drop_last(), f, m);
        let j = choose|j: int| 0 <= j < items.drop_last().len() && #[trigger] items.drop_last()[j] == rest[m];
        assert(items[j] == items.drop_last()[j]);
    } else {
        assert(items[items.len() - 1] == picked(items, f)[m]);
    }
}

/// Each declaration among the top-level items is one of them.
proof fn lemma_defs_in(items: Seq<TopItem>, m: int)
    requires
        0 <= m < defs_in(items).len(),
    ensures
        exists|j: int| 0 <= j < items.len() && #[trigger] items[j] == TopItem::Def(defs_in(items)[m]),
    decreases items.len(),
{
    let rest = defs_in(items.drop_last());
    if m < rest.len() {
        lemma_defs_in(items.drop_last(), m);
        let j = choose|j: int| 0 <= j < items.drop_last().len() && #[trigger] items.drop_last()[j] == TopItem::Def(rest[m]);
        assert(items[j] == items.drop_last()[j]);
    } else {
        assert(items[items.len() - 1] == TopItem::Def(defs_in(items)[m]));
    }
}

/// Each rule among the top-level items is one of them.
proof fn lemma_rules_in(items: Seq<TopItem>, m: int)
    requires
        0 <= m < rules_in(items).len(),
    ensures
        exists|j: int| 0 <= j < items.len() && #[trigger] items[j] == TopItem::Rule(rules_in(items)[m]),
    decreases items.len(),
{
    let rest = rules_in(items.drop_last());
    if m < rest.len() {
        lemma_rules_in(items.drop_last(), m);
        let j = choose|j: int| 0 <= j < items.drop_last().len() && #[trigger] items.drop_last()[j] == TopItem::Rule(rest[m]);
        assert(items[j] == items.drop_last()[j]);
    } else {
        assert(items[items.len() - 1] == TopItem::Rule(rules_in(items)[m]));
    }
}

/// A rule the grammar writes has no hole.
proof fn lemma_rule_whole(t: Seq<TokenSpec>, i: int, j: int, r: Rule)
    requires
        spells_rule(t, i, j, r),
    ensures
        rule_whole(r),
{
    let (items, cuts) = choose|items: Seq<RuleItem>, cuts: Seq<int>|
        #[trigger] spells_rule_items(t, i + 3, j - 1, items, cuts) && rule_built(items, r);
    // Whatever field an item is, its expressions have no hole.
    assert forall|m: int| 0 <= m < items.len() implies match #[trigger] items[m] {
        RuleItem::Priority(e) => whole(e),
        RuleItem::Require(e) => whole(e),
        RuleItem::Let(l) => whole(l.value),
        RuleItem::Do(a) => all_whole(a.args@),
        _ => true,
    } by {
        assert(spells_rule_item(t, cuts[m], cuts[m + 1], items[m]));
        match items[m] {
            RuleItem::Priority(e) => lemma_spells_whole(t, 0, cuts[m] + 1, cuts[m + 1], e),
            RuleItem::Require(e) => lemma_spells_whole(t, 0, cuts[m] + 1, cuts[m + 1], e),
            RuleItem::Let(l) => lemma_spells_whole(t, 0, cuts[m] + 3, cuts[m + 1], l.value),
            RuleItem::Do(a) => {
                if a.args@.len() > 0 {
                    lemma_args_whole(t, cuts[m] + 3, cuts[m + 1] - 1, a.args@);
                }
            },
            _ => {},
        }
    }
    lemma_picked_in(items, Field::Priority, 0);
    lemma_picked_in(items, Field::Do, 0);
    assert forall|i2: int| 0 <= i2 < r.lets@.len() implies whole(#[trigger] r.lets@[i2].value) by {
        lemma_picked_in(items, Field::Let, i2);
        assert(picked(items, Field::Let)[i2] == RuleItem::Let(r.lets@[i2]));
    }
    assert forall|j2: int| 0 <= j2 < r.requires@.len() implies whole(#[trigger] r.requires@[j2]) by {
        lemma_picked_in(items, Field::Require, j2);
        assert(picked(items, Field::Require)[j2] == RuleItem::Require(r.requires@[j2]));
    }
    assert(picked(items, Field::Priority)[0] == RuleItem::Priority(r.priority));
    assert(picked(items, Field::Do)[0] == RuleItem::Do(r.action));
}

/// A rule set the grammar writes has no hole.
pub proof fn lemma_program_whole(t: Seq<TokenSpec>, ast: Ast)
    requires
        spells_program(t, ast),
    ensures
        holes_free(ast),
{
    let (items, cuts) = choose|items: Seq<TopItem>, cuts: Seq<int>|
        {
            &&& #[trigger] spells_tops(t, 0, cuts.last(), items, cuts)
            &&& tag_at(t, cuts.last()) == crate::token::Tag::Eof
            &&& ast.params@ == crate::grammar::params_in(items)
            &&& ast.defs@ == defs_in(items)
            &&& ast.rules@ == rules_in(items)
        };
    assert forall|k: int| 0 <= k < ast.defs@.len() implies whole(#[trigger] ast.defs@[k].body) by {
        lemma_defs_in(items, k);
        let m = choose|m: int| 0 <= m < items.len() && #[trigger] items[m] == TopItem::Def(defs_in(items)[k]);
        assert(spells_top(t, cuts[m], cuts[m + 1], items[m]));
        let d = ast.defs@[k];
        assert(spells_def(t, cuts[m], cuts[m + 1], d));
        let e = crate::grammar::def_params_end(cuts[m] + 3, d.params@.len() as int);
        lemma_spells_whole(t, 0, e + 2, cuts[m + 1], d.body);
    }
    assert forall|k: int| 0 <= k < ast.rules@.len() implies rule_whole(#[trigger] ast.rules@[k]) by {
        lemma_rules_in(items, k);
        let m = choose|m: int| 0 <= m < items.len() && #[trigger] items[m] == TopItem::Rule(rules_in(items)[k]);
        assert(spells_top(t, cuts[m], cuts[m + 1], items[m]));
        lemma_rule_whole(t, cuts[m], cuts[m + 1], ast.rules@[k]);
    }
}

} // verus!
