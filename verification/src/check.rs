//! Type checking.
//!
//! Bidirectional: most nodes are *synthesised* bottom-up, but enum literals have
//! no type of their own and must be *checked* against what a parameter expects.
//!
//! Every diagnostic here is an error: an error means the rule set cannot be
//! lowered. Collects rather than bailing, so one bad rule does not hide the
//! rest.
use crate::ast::{Action, Ast, BinOp, Def, Expr, ExprKind, Name, Param, ParamKind, Rule, UnOp};
use crate::diag::{Diagnostic, Span};
use crate::env;
use crate::ir::Ir;
use crate::suggest::{suggest, views};
use crate::text::{str_eq, usize_text};
use crate::types::{param_view, params_view, Domain, ParamSpec, ParamType, Type};
use crate::typing::{
    args_ok, call_spec, check_arg_spec, check_expr_spec, count_spec, def_params_spec, defs_spec, fixed,
    ident_spec, kind_type as kind_type_spec, lets_spec, lookup, lookup_def, params_spec, rule_ok, synth_spec, action_ok, well_typed, bind_ok, Names,
};
use crate::totality::{checked_rules_lower, holes_free};
use crate::said::{
    said, one, lemma_said_push, lemma_said_join, lemma_said_nothing, reserved_text, not_static_text,
    said_synth, said_check_expr, said_check_arg, said_ident, said_call, said_count, said_args,
    said_action, said_bind, said_lets, said_conditions, said_rule, said_params, said_def_params,
    said_defs, said_rules, said_program,
};
use vstd::prelude::*;
use vstd::string::*;

verus! {



/// A rule set that can be lowered, plus anything worth saying that did not
/// stop it.
pub struct Checked {
    pub ir: Ir,
    pub warnings: Vec<Diagnostic>,
}

/// Nothing already reported is lost, and everything reported is an error.
pub open spec fn grows(before: Seq<Diagnostic>, after: Seq<Diagnostic>) -> bool {
    &&& before.is_prefix_of(after)
    &&& forall|i: int| 0 <= i < after.len() ==> (#[trigger] after[i]).is_error_spec()
}

pub open spec fn all_errors(ds: Seq<Diagnostic>) -> bool {
    forall|i: int| 0 <= i < ds.len() ==> (#[trigger] ds[i]).is_error_spec()
}

/// A list of names and types, as the typing rules see it.
pub open spec fn named_view(v: Seq<(String, Type)>) -> Seq<(Seq<char>, Type)> {
    v.map_values(|p: (String, Type)| (p.0@, p.1))
}

/// The defs declared so far, as the typing rules see them.
pub open spec fn sigs_view(v: Seq<DefSig>) -> Seq<(Seq<char>, Seq<Type>, Type)> {
    v.map_values(|d: DefSig| (d.name@, d.params@, d.ret))
}

/// What a context lets names refer to.
pub open spec fn names_of(ctx: Ctx) -> Names {
    Names {
        params: named_view(ctx.params@),
        defs: sigs_view(ctx.defs@),
        scope: named_view(ctx.scope@),
        fixed: ctx.phase is Static,
    }
}

/// What a fixed position is called in a diagnostic; nothing during a tick.
pub open spec fn what_of(ctx: Ctx) -> Seq<char> {
    match ctx.phase {
        Phase::Static(w) => w@,
        Phase::Tick => Seq::empty(),
    }
}

/// Something was reported exactly when the checked thing was not `clean`.
pub open spec fn reports(before: Seq<Diagnostic>, after: Seq<Diagnostic>, clean: bool) -> bool {
    &&& grows(before, after)
    &&& (after.len() == before.len()) == clean
}

proof fn lemma_lookup_found(s: Seq<(String, Type)>, n: Seq<char>, i: int)
    requires
        0 <= i < s.len(),
        s[i].0@ == n,
        forall|j: int| 0 <= j < i ==> s[j].0@ != n,
    ensures
        lookup(named_view(s), n) == Some(s[i].1),
    decreases i,
{
    if i > 0 {
        lemma_lookup_found(s.drop_first(), n, i - 1);
        assert(named_view(s).drop_first() =~= named_view(s.drop_first()));
    }
}

proof fn lemma_lookup_missing(s: Seq<(String, Type)>, n: Seq<char>)
    requires
        forall|j: int| 0 <= j < s.len() ==> s[j].0@ != n,
    ensures
        lookup(named_view(s), n) is None,
    decreases s.len(),
{
    if s.len() > 0 {
        lemma_lookup_missing(s.drop_first(), n);
        assert(named_view(s).drop_first() =~= named_view(s.drop_first()));
    }
}

proof fn lemma_lookup_def_found(s: Seq<DefSig>, n: Seq<char>, i: int)
    requires
        0 <= i < s.len(),
        s[i].name@ == n,
        forall|j: int| 0 <= j < i ==> s[j].name@ != n,
    ensures
        lookup_def(sigs_view(s), n) == Some((s[i].params@, s[i].ret)),
    decreases i,
{
    if i > 0 {
        lemma_lookup_def_found(s.drop_first(), n, i - 1);
        assert(sigs_view(s).drop_first() =~= sigs_view(s.drop_first()));
    }
}

proof fn lemma_lookup_def_missing(s: Seq<DefSig>, n: Seq<char>)
    requires
        forall|j: int| 0 <= j < s.len() ==> s[j].name@ != n,
    ensures
        lookup_def(sigs_view(s), n) is None,
    decreases s.len(),
{
    if s.len() > 0 {
        lemma_lookup_def_missing(s.drop_first(), n);
        assert(sigs_view(s).drop_first() =~= sigs_view(s.drop_first()));
    }
}

/// Checks a rule set and lowers it.
///
/// The only way to obtain an `Ir`. Both kinds of diagnostic come back on
/// failure, so an error does not bury a warning beside it; which ones, with
/// what message and where, `said::said_program` says. A tree with a hole
/// where a parse failed is accepted only where something else is wrong with
/// it too: one that would check clean has nothing to lower.
pub fn check(ast: &Ast) -> (r: Result<Checked, Vec<Diagnostic>>)
    requires
        holes_free(*ast) || said_program(*ast).len() > 0,
    ensures
        match r {
            Ok(c) => c.warnings@.len() == 0,
            Err(ds) => ds@.len() > 0 && all_errors(ds@),
        },
        r is Ok <==> well_typed(*ast),
        r matches Ok(c) ==> crate::lower::ast_lowered(*ast, c.ir),
        r matches Err(ds) ==> said(ds@) == said_program(*ast),
        r matches Err(ds) ==> exists|k: int| 0 <= k < ds@.len() && #[trigger] ds@[k].is_error_spec(),
        r is Ok <==> said_program(*ast).len() == 0,
{
    let mut diags: Vec<Diagnostic> = Vec::new();
    let mut params: Vec<(String, Type)> = Vec::new();
    let mut defs: Vec<DefSig> = Vec::new();
    assert(said(diags@) =~= Seq::empty());
    declare_params(&ast.params, &mut params, &mut diags);
    let ghost after_params = diags@.len();
    declare_defs(&ast.defs, &params, &mut defs, &mut diags);
    let ghost after_defs = diags@.len();
    let ghost said_decls = said(diags@);
    let ghost pv = named_view(params@);
    let ghost dv = sigs_view(defs@);
    let mut i: usize = 0;
    while i < ast.rules.len()
        invariant
            all_errors(diags@),
            i <= ast.rules@.len(),
            pv == named_view(params@),
            dv == sigs_view(defs@),
            diags@.len() >= after_defs,
            (diags@.len() == after_defs) == forall|j: int| 0 <= j < i ==> #[trigger] rule_ok(pv, dv, ast.rules@[j]),
            said(diags@) == said_decls + said_rules(pv, dv, ast.rules@, i as int),
        decreases ast.rules@.len() - i,
    {
        let ghost before = diags@.len();
        check_rule(&ast.rules[i], &params, &defs, &mut diags);
        proof {
            lemma_said_join(said_decls, said_rules(pv, dv, ast.rules@, i as int), said_rule(pv, dv, ast.rules@[i as int]));
            if diags@.len() == after_defs {
                assert forall|j: int| 0 <= j < i + 1 implies #[trigger] rule_ok(pv, dv, ast.rules@[j]) by {
                    if j < i {
                        assert(before == after_defs);
                    }
                }
            }
            if forall|j: int| 0 <= j < i + 1 ==> #[trigger] rule_ok(pv, dv, ast.rules@[j]) {
                assert forall|j: int| 0 <= j < i implies #[trigger] rule_ok(pv, dv, ast.rules@[j]) by {}
                assert(rule_ok(pv, dv, ast.rules@[i as int]));
            }
        }
        i += 1;
    }
    proof {
        assert(well_typed(*ast) == (diags@.len() == 0));
        assert(said(diags@) == said_program(*ast));
    }
    if diags.len() > 0 {
        assert(diags@[0].is_error_spec());
        return Err(diags);
    }
    proof {
        assert(said_program(*ast).len() == 0);
        checked_rules_lower(*ast);
    }
    match crate::lower::lower(ast) {
        Some(ir) => Ok(Checked { ir, warnings: diags }),
        // A rule set that checks lowers.
        None => vstd::pervasive::unreached(),
    }
}

/// A `def`'s signature, once its body has been checked.
pub struct DefSig {
    pub name: String,
    pub params: Vec<Type>,
    pub ret: Type,
}

/// Which of the two evaluations an expression belongs to: a priority or an
/// argument resolves once per doctrine, a condition every tick. Carries what is
/// being checked, so the diagnostic can name it.
#[derive(Clone, Copy)]
pub enum Phase {
    Static(&'static str),
    Tick,
}

/// What a name may refer to while checking one expression.
pub struct Ctx<'a> {
    pub params: &'a Vec<(String, Type)>,
    pub defs: &'a Vec<DefSig>,
    /// The rule's bindings so far.
    pub scope: &'a Vec<(String, Type)>,
    pub phase: Phase,
}

/// Whether some predicate is spelled `n`.
pub open spec fn names_predicate(n: Seq<char>) -> bool {
    exists|p: env::Predicate| env::predicate_name(p) == n
}

pub open spec fn names_builtin(n: Seq<char>) -> bool {
    exists|b: env::Builtin| env::builtin_name(b) == n
}

/// Why a name may not be introduced, or `None` if it is free: a predicate, a
/// builtin, or a member of some domain.
pub fn reserved(name: &str) -> (r: Option<String>)
    ensures
        r is Some <==> (names_predicate(name@) || names_builtin(name@) || env::domains_matching(
            env::all_domains(),
            name@,
        ).len() > 0),
        r is Some <==> (env::predicate_named(name@) is Some || env::builtin_named(name@) is Some
            || env::domains_matching(env::all_domains(), name@).len() > 0),
        r matches Some(m) ==> m@ == reserved_text(name@),
{
    if env::predicate(name).is_some() {
        let mut m = String::from_str("`");
        m.append(name);
        m.append("` is a predicate");
        return Some(m);
    }
    if env::builtin(name).is_some() {
        let mut m = String::from_str("`");
        m.append(name);
        m.append("` is a builtin");
        return Some(m);
    }
    // Enum literals resolve by position, so `powr` would mean the binding in
    // `cash > powr` and the building in `count(powr)`.
    let ds = env::domains_containing(name);
    if ds.len() > 0 {
        let mut m = String::from_str("`");
        m.append(name);
        m.append("` is a ");
        m.append(ds[0].name());
        return Some(m);
    }
    None
}

/// The first entry named `name`.
fn find_named(v: &Vec<(String, Type)>, name: &str) -> (r: Option<usize>)
    ensures
        match r {
            Some(i) => i < v@.len() && v@[i as int].0@ == name@ && lookup(named_view(v@), name@) == Some(
                v@[i as int].1,
            ),
            None => (forall|i: int| 0 <= i < v@.len() ==> v@[i].0@ != name@) && lookup(named_view(v@), name@) is None,
        },
{
    let mut i: usize = 0;
    while i < v.len()
        invariant
            i <= v@.len(),
            forall|j: int| 0 <= j < i ==> v@[j].0@ != name@,
        decreases v@.len() - i,
    {
        if str_eq(v[i].0.as_str(), name) {
            proof {
                lemma_lookup_found(v@, name@, i as int);
            }
            return Some(i);
        }
        i += 1;
    }
    proof {
        lemma_lookup_missing(v@, name@);
    }
    None
}

fn find_def(v: &Vec<DefSig>, name: &str) -> (r: Option<usize>)
    ensures
        match r {
            Some(i) => i < v@.len() && v@[i as int].name@ == name@ && lookup_def(sigs_view(v@), name@) == Some(
                (v@[i as int].params@, v@[i as int].ret),
            ),
            None => lookup_def(sigs_view(v@), name@) is None,
        },
{
    let mut i: usize = 0;
    while i < v.len()
        invariant
            i <= v@.len(),
            forall|j: int| 0 <= j < i ==> v@[j].name@ != name@,
        decreases v@.len() - i,
    {
        if str_eq(v[i].name.as_str(), name) {
            proof {
                lemma_lookup_def_found(v@, name@, i as int);
            }
            return Some(i);
        }
        i += 1;
    }
    proof {
        lemma_lookup_def_missing(v@, name@);
    }
    None
}

fn kind_type(k: ParamKind) -> (t: Type)
    ensures
        t == kind_type_spec(k),
{
    match k {
        ParamKind::Int => Type::Int,
        ParamKind::Float => Type::Float,
    }
}

fn copy_named(v: &Vec<(String, Type)>) -> (r: Vec<(String, Type)>)
    ensures
        named_view(r@) == named_view(v@),
{
    let mut r: Vec<(String, Type)> = Vec::new();
    let mut i: usize = 0;
    while i < v.len()
        invariant
            i <= v@.len(),
            r@.len() == i,
            forall|j: int| 0 <= j < i ==> (#[trigger] r@[j]).0@ == v@[j].0@ && r@[j].1 == v@[j].1,
        decreases v@.len() - i,
    {
        r.push((v[i].0.clone(), v[i].1.duplicate()));
        i += 1;
    }
    assert(named_view(r@) =~= named_view(v@));
    r
}

fn push_error(diags: &mut Vec<Diagnostic>, span: Span, message: String)
    requires
        all_errors(old(diags)@),
    ensures
        grows(old(diags)@, final(diags)@),
        final(diags)@.len() == old(diags)@.len() + 1,
        said(final(diags)@) == said(old(diags)@) + one(message@, span),
{
    let d = Diagnostic::error(span, message);
    proof {
        lemma_said_push(diags@, d);
    }
    diags.push(d);
    assert(old(diags)@.is_prefix_of(diags@));
}

/// Records the declared parameters, rejecting duplicates and any name that
/// would shadow a predicate, a builtin or an enum literal. A rejected one is
/// still recorded, as `Error`, so it does not become an "unknown name" at
/// every use.
fn declare_params(
    decls: &Vec<Param>,
    params: &mut Vec<(String, Type)>,
    diags: &mut Vec<Diagnostic>,
)
    requires
        all_errors(old(diags)@),
        old(params)@.len() == 0,
    ensures
        named_view(final(params)@) == params_spec(decls@, decls@.len() as int).0,
        reports(old(diags)@, final(diags)@, params_spec(decls@, decls@.len() as int).1),
        said(final(diags)@) == said(old(diags)@) + said_params(decls@, decls@.len() as int),
{
    let mut i: usize = 0;
    assert(named_view(params@) =~= Seq::<(Seq<char>, Type)>::empty());
    while i < decls.len()
        invariant
            grows(old(diags)@, diags@),
            i <= decls@.len(),
            named_view(params@) == params_spec(decls@, i as int).0,
            (diags@.len() == old(diags)@.len()) == params_spec(decls@, i as int).1,
            said(diags@) == said(old(diags)@) + said_params(decls@, i as int),
        decreases decls@.len() - i,
    {
        let ghost pv = named_view(params@);
        let ghost said_before = said(diags@);
        let p = &decls[i];
        let name = p.name.text.as_str();
        let bad = match reserved(name) {
            Some(why) => {
                let mut m = why;
                m.append(" and cannot be a parameter");
                Some(m)
            },
            None => match find_named(params, name) {
                Some(_) => {
                    let mut m = String::from_str("`");
                    m.append(name);
                    m.append("` is declared twice");
                    Some(m)
                },
                None => None,
            },
        };
        match bad {
            Some(m) => {
                push_error(diags, p.name.span, m);
                params.push((p.name.text.clone(), Type::Error));
            },
            None => {
                params.push((p.name.text.clone(), kind_type(p.kind)));
            },
        }
        assert(named_view(params@) =~= pv.push(named_view(params@).last()));
        proof {
            let t = decls@[i as int].name.text@;
            let step = if env::predicate_named(t) is Some || env::builtin_named(t) is Some
                || env::domains_matching(env::all_domains(), t).len() > 0 {
                one(reserved_text(t) + " and cannot be a parameter"@, decls@[i as int].name.span)
            } else if lookup(pv, t) is Some {
                one("`"@ + t + "` is declared twice"@, decls@[i as int].name.span)
            } else {
                Seq::empty()
            };
            assert(said(diags@) == said_before + step);
            lemma_said_join(said(old(diags)@), said_params(decls@, i as int), step);
        }
        i += 1;
    }
}

/// Checks each `def` body and records what it returns, in order, with only
/// earlier defs in scope — which rules out recursion.
fn declare_defs(
    decls: &Vec<Def>,
    params: &Vec<(String, Type)>,
    defs: &mut Vec<DefSig>,
    diags: &mut Vec<Diagnostic>,
)
    requires
        all_errors(old(diags)@),
        old(defs)@.len() == 0,
    ensures
        sigs_view(final(defs)@) == defs_spec(decls@, named_view(params@), decls@.len() as int).0,
        reports(old(diags)@, final(diags)@, defs_spec(decls@, named_view(params@), decls@.len() as int).1),
        said(final(diags)@) == said(old(diags)@) + said_defs(decls@, named_view(params@), decls@.len() as int),
{
    let ghost pv = named_view(params@);
    let mut i: usize = 0;
    assert(sigs_view(defs@) =~= Seq::<(Seq<char>, Seq<Type>, Type)>::empty());
    while i < decls.len()
        invariant
            grows(old(diags)@, diags@),
            i <= decls@.len(),
            pv == named_view(params@),
            sigs_view(defs@) == defs_spec(decls@, pv, i as int).0,
            (diags@.len() == old(diags)@.len()) == defs_spec(decls@, pv, i as int).1,
            said(diags@) == said(old(diags)@) + said_defs(decls@, pv, i as int),
        decreases decls@.len() - i,
    {
        let ghost dv = sigs_view(defs@);
        let ghost start = diags@.len();
        let ghost said_before = said(diags@);
        let ghost at = i as int;
        let d = &decls[i];
        let name = d.name.text.as_str();
        i += 1;
        if let Some(why) = reserved(name) {
            let mut m = why;
            m.append(" and cannot be a def");
            push_error(diags, d.name.span, m);
            proof {
                lemma_said_join(
                    said(old(diags)@),
                    said_defs(decls@, pv, at),
                    one(reserved_text(name@) + " and cannot be a def"@, d.name.span),
                );
            }
            continue;
        }
        if find_def(defs, name).is_some() || find_named(params, name).is_some() {
            let mut m = String::from_str("`");
            m.append(name);
            m.append("` is already declared");
            push_error(diags, d.name.span, m);
            proof {
                lemma_said_join(
                    said(old(diags)@),
                    said_defs(decls@, pv, at),
                    one("`"@ + name@ + "` is already declared"@, d.name.span),
                );
            }
            continue;
        }
        // With the doctrine's parameters rather than in a rule scope: a def is
        // substituted before anything evaluates.
        let mut visible = copy_named(params);
        let mut types: Vec<Type> = Vec::new();
        let mut k: usize = 0;
        assert(types@ =~= Seq::<Type>::empty());
        while k < d.params.len()
            invariant
                grows(old(diags)@, diags@),
                k <= d.params@.len(),
                diags@.len() >= start,
                named_view(visible@) == def_params_spec(pv, d.params@, k as int).0,
                types@ == def_params_spec(pv, d.params@, k as int).1,
                (diags@.len() == start) == def_params_spec(pv, d.params@, k as int).2,
                said(diags@) == said_before + said_def_params(d.params@, k as int),
            decreases d.params@.len() - k,
        {
            let ghost vv = named_view(visible@);
            let p = &d.params[k];
            if let Some(why) = reserved(p.name.text.as_str()) {
                let mut m = why;
                m.append(" and cannot be a def parameter");
                push_error(diags, p.name.span, m);
                proof {
                    lemma_said_join(
                        said_before,
                        said_def_params(d.params@, k as int),
                        one(reserved_text(p.name.text@) + " and cannot be a def parameter"@, p.name.span),
                    );
                }
            }
            visible.push((p.name.text.clone(), kind_type(p.kind)));
            types.push(kind_type(p.kind));
            assert(named_view(visible@) =~= vv.push(named_view(visible@).last()));
            k += 1;
        }
        let ghost mid = diags@.len();
        let scope: Vec<(String, Type)> = Vec::new();
        let ctx = Ctx { params: &visible, defs: &*defs, scope: &scope, phase: Phase::Tick };
        assert(named_view(scope@) =~= Seq::<(Seq<char>, Type)>::empty());
        let ret = synth(&ctx, diags, &d.body);
        defs.push(DefSig { name: d.name.text.clone(), params: types, ret });
        assert(sigs_view(defs@) =~= dv.push(sigs_view(defs@).last()));
        proof {
            let ps = said_def_params(d.params@, d.params@.len() as int);
            let body = said_synth(names_of(ctx), Seq::empty(), d.body);
            assert(said(diags@) == said_before + ps + body);
            lemma_said_join(said_before, ps, body);
            lemma_said_join(said(old(diags)@), said_defs(decls@, pv, at), ps + body);
        }
    }
}

/// One rule's checking pass. The scope is born and dropped with the rule, so a
/// stale binding is impossible.
pub fn check_rule(
    rule: &Rule,
    params: &Vec<(String, Type)>,
    defs: &Vec<DefSig>,
    diags: &mut Vec<Diagnostic>,
)
    requires
        all_errors(old(diags)@),
    ensures
        reports(old(diags)@, final(diags)@, rule_ok(named_view(params@), sigs_view(defs@), *rule)),
        !env::is_category_spec(rule.category.text@) ==> final(diags)@.len() > old(diags)@.len(),
        !env::is_action_spec(rule.action.name.text@) ==> final(diags)@.len() > old(diags)@.len(),
        said(final(diags)@) == said(old(diags)@) + said_rule(named_view(params@), sigs_view(defs@), *rule),
{
    let ghost pv = named_view(params@);
    let ghost dv = sigs_view(defs@);
    let mut scope: Vec<(String, Type)> = Vec::new();
    assert(named_view(scope@) =~= Seq::<(Seq<char>, Type)>::empty());

    // Before the bindings: a priority may see parameters, not `let`s.
    {
        let ctx = Ctx { params, defs, scope: &scope, phase: Phase::Static("a priority") };
        check_expr(&ctx, diags, &rule.priority, &Type::Int);
    }
    let ghost after_priority = diags@.len();
    let ghost said_priority = said(diags@);
    let ghost priority_ok = after_priority == old(diags)@.len();

    let mut i: usize = 0;
    while i < rule.lets.len()
        invariant
            grows(old(diags)@, diags@),
            i <= rule.lets@.len(),
            pv == named_view(params@),
            dv == sigs_view(defs@),
            diags@.len() >= after_priority,
            named_view(scope@) == lets_spec(pv, dv, rule.lets@, i as int).0,
            (diags@.len() == after_priority) == lets_spec(pv, dv, rule.lets@, i as int).1,
            said(diags@) == said_priority + said_lets(pv, dv, rule.lets@, i as int),
        decreases rule.lets@.len() - i,
    {
        let binding = &rule.lets[i];
        let ghost sc = named_view(scope@);
        let ty = {
            let ctx = Ctx { params, defs, scope: &scope, phase: Phase::Tick };
            synth(&ctx, diags, &binding.value)
        };
        bind(&mut scope, params, diags, &binding.name, ty);
        proof {
            let value_said = said_synth(
                Names { params: pv, defs: dv, scope: sc, fixed: false },
                Seq::empty(),
                binding.value,
            );
            lemma_said_join(said_priority, said_lets(pv, dv, rule.lets@, i as int), value_said);
            lemma_said_join(
                said_priority,
                said_lets(pv, dv, rule.lets@, i as int) + value_said,
                said_bind(pv, sc, binding.name),
            );
        }
        i += 1;
    }
    let ghost after_lets = diags@.len();
    let ghost said_lets_done = said(diags@);
    let ghost sv = named_view(scope@);
    let ghost tick = Names { params: pv, defs: dv, scope: sv, fixed: false };

    let mut j: usize = 0;
    while j < rule.requires.len()
        invariant
            grows(old(diags)@, diags@),
            j <= rule.requires@.len(),
            pv == named_view(params@),
            dv == sigs_view(defs@),
            sv == named_view(scope@),
            tick == (Names { params: pv, defs: dv, scope: sv, fixed: false }),
            diags@.len() >= after_lets,
            (diags@.len() == after_lets) == forall|q: int|
                0 <= q < j ==> #[trigger] check_expr_spec(tick, rule.requires@[q], Type::Bool),
            said(diags@) == said_lets_done + said_conditions(tick, rule.requires@, j as int),
        decreases rule.requires@.len() - j,
    {
        let ctx = Ctx { params, defs, scope: &scope, phase: Phase::Tick };
        let ghost before = diags@.len();
        check_expr(&ctx, diags, &rule.requires[j], &Type::Bool);
        proof {
            lemma_said_join(
                said_lets_done,
                said_conditions(tick, rule.requires@, j as int),
                said_check_expr(tick, Seq::empty(), rule.requires@[j as int], Type::Bool),
            );
            if diags@.len() == after_lets {
                assert forall|q: int| 0 <= q < j + 1 implies #[trigger] check_expr_spec(tick, rule.requires@[q], Type::Bool) by {
                    if q < j {
                        assert(before == after_lets);
                    }
                }
            }
            if forall|q: int| 0 <= q < j + 1 ==> #[trigger] check_expr_spec(tick, rule.requires@[q], Type::Bool) {
                assert forall|q: int| 0 <= q < j implies #[trigger] check_expr_spec(tick, rule.requires@[q], Type::Bool) by {}
                assert(check_expr_spec(tick, rule.requires@[j as int], Type::Bool));
            }
        }
        j += 1;
    }
    let ghost after_requires = diags@.len();

    // A misspelled category would make its own exclusivity group, letting two
    // rules fire that meant to exclude each other.
    let ghost before_category = diags@;
    if !env::is_category(rule.category.text.as_str()) {
        let mut m = String::from_str("unknown category `");
        m.append(rule.category.text.as_str());
        m.append("`");
        push_error(diags, rule.category.span, m);
    }
    let ghost after_category = diags@.len();
    let ghost said_category = said(diags@);
    let ctx = Ctx { params, defs, scope: &scope, phase: Phase::Tick };
    check_action(&ctx, diags, &rule.action);
    proof {
        let p = said_check_expr(
            Names { params: pv, defs: dv, scope: Seq::empty(), fixed: true },
            "a priority"@,
            rule.priority,
            Type::Int,
        );
        let l = said_lets(pv, dv, rule.lets@, rule.lets@.len() as int);
        let c = said_conditions(tick, rule.requires@, rule.requires@.len() as int);
        let k = if env::is_category_spec(rule.category.text@) {
            Seq::empty()
        } else {
            one("unknown category `"@ + rule.category.text@ + "`"@, rule.category.span)
        };
        let a = said_action(tick, Seq::empty(), rule.action);
        let o = said(old(diags)@);
        assert(said_priority == o + p);
        assert(said_lets_done == o + p + l);
        assert(said_category == o + p + l + c + k);
        assert(said(diags@) =~= o + (p + l + c + k + a));
        assert(old(diags)@.is_prefix_of(diags@));
        assert(names_of(ctx) == tick);
        assert((after_category == after_requires) == env::is_category_spec(rule.category.text@));
    }
}

/// An action name, and its arguments when it takes any.
fn check_action(ctx: &Ctx, diags: &mut Vec<Diagnostic>, action: &Action)
    requires
        all_errors(old(diags)@),
    ensures
        reports(old(diags)@, final(diags)@, action_ok(names_of(*ctx), *action)),
        !env::is_action_spec(action.name.text@) ==> final(diags)@.len() > old(diags)@.len(),
        said(final(diags)@) == said(old(diags)@) + said_action(names_of(*ctx), what_of(*ctx), *action),
{
    let name = action.name.text.as_str();
    let ghost names = names_of(*ctx);
    if let Some(sig) = env::action_signature(name) {
        let ghost want = params_view(sig.params@);
        if action.args.len() != sig.params.len() {
            let mut m = String::from_str("`");
            m.append(name);
            m.append("` expects ");
            m.append(usize_text(sig.params.len()).as_str());
            m.append(" argument(s), got ");
            m.append(usize_text(action.args.len()).as_str());
            push_error(diags, action.span, m);
            return;
        }
        let mut i: usize = 0;
        while i < action.args.len()
            invariant
                grows(old(diags)@, diags@),
                i <= action.args@.len(),
                action.args@.len() == sig.params@.len(),
                want == params_view(sig.params@),
                names == names_of(*ctx),
                (diags@.len() == old(diags)@.len()) == args_ok(names, action.args@, want, i as int),
                said(diags@) == said(old(diags)@) + said_args(names, what_of(*ctx), action.args@, want, i as int),
            decreases action.args@.len() - i,
        {
            assert(param_view(sig.params@[i as int]) == want[i as int]);
            check_arg(ctx, diags, &action.args[i], &sig.params[i]);
            proof {
                let w = what_of(*ctx);
                lemma_said_join(
                    said(old(diags)@),
                    said_args(names, w, action.args@, want, i as int),
                    said_check_arg(names, w, action.args@[i as int], want[i as int]),
                );
            }
            i += 1;
        }
        proof {
            // A factory-built action is an action too.
            let k = env::factory_named(name@).unwrap();
            assert(env::action_spec(k) == name@) by {
                lemma_factory_named(name@, env::plain_action_count());
            }
        }
        return;
    }
    if !env::is_action(name) {
        let mut m = String::from_str("unknown action `");
        m.append(name);
        m.append("`");
        let note = suggest(name, &action_names());
        m.append(note.as_str());
        push_error(diags, action.name.span, m);
        return;
    }
    if action.args.len() > 0 {
        let mut m = String::from_str("`");
        m.append(name);
        m.append("` takes no arguments");
        push_error(diags, action.span, m);
    }
}

proof fn lemma_factory_named(n: Seq<char>, i: int)
    requires
        env::first_factory(n, i) is Some,
    ensures
        env::plain_action_count() <= env::first_factory(n, i).unwrap() < env::action_count(),
        env::action_spec(env::first_factory(n, i).unwrap()) == n,
    decreases env::action_count() - i,
{
    if !(i < env::plain_action_count() || i >= env::action_count()) && env::action_spec(i) != n {
        lemma_factory_named(n, i + 1);
    }
}

/// Every action's name, plain and factory-built.
fn action_names() -> (v: Vec<&'static str>)
    ensures
        v@.len() == env::action_count(),
        views(v@) == crate::said::action_candidates(),
{
    let mut v: Vec<&'static str> = Vec::new();
    let mut i: u32 = 0;
    while i < 83
        invariant
            i <= 83,
            env::action_count() == 83,
            v@.len() == i,
            views(v@) == Seq::new(i as nat, |k: int| env::action_spec(k)),
        decreases 83 - i,
    {
        let ghost before = v@;
        v.push(env::action_name(i));
        assert(views(v@) =~= Seq::new((i + 1) as nat, |k: int| env::action_spec(k))) by {
            assert(views(v@) =~= views(before).push(v@.last()@));
        }
        i += 1;
    }
    v
}

/// Every predicate's name, then the rule's bindings: what an unknown name is
/// compared against.
fn name_candidates<'b>(scope: &'b Vec<(String, Type)>) -> (v: Vec<&'b str>)
    ensures
        views(v@) == crate::said::name_candidates(named_view(scope@)),
{
    let mut v: Vec<&'b str> = Vec::new();
    let mut i: usize = 0;
    let ghost preds = Seq::new(
        env::predicate_count() as nat,
        |k: int| env::predicate_name(env::predicate_at_spec(k)),
    );
    while i < 64
        invariant
            i <= 64,
            env::predicate_count() == 64,
            views(v@) == Seq::new(i as nat, |k: int| env::predicate_name(env::predicate_at_spec(k))),
        decreases 64 - i,
    {
        let ghost before = v@;
        v.push(env::predicate_at(i).name());
        assert(views(v@) =~= Seq::new(
            (i + 1) as nat,
            |k: int| env::predicate_name(env::predicate_at_spec(k)),
        )) by {
            assert(views(v@) =~= views(before).push(v@.last()@));
        }
        i += 1;
    }
    let ghost names = named_view(scope@).map_values(|b: (Seq<char>, Type)| b.0);
    let mut j: usize = 0;
    while j < scope.len()
        invariant
            j <= scope@.len(),
            names == named_view(scope@).map_values(|b: (Seq<char>, Type)| b.0),
            views(v@) == preds + names.subrange(0, j as int),
        decreases scope@.len() - j,
    {
        let ghost before = v@;
        v.push(scope[j].0.as_str());
        assert(views(v@) =~= preds + names.subrange(0, j + 1)) by {
            assert(views(v@) =~= views(before).push(v@.last()@));
        }
        j += 1;
    }
    assert(names.subrange(0, scope@.len() as int) =~= names);
    v
}

/// The spellings of every member of these domains.
fn member_candidates(ds: &Vec<Domain>) -> (v: Vec<&'static str>)
    ensures
        views(v@) == crate::said::member_candidates(ds@),
{
    let mut v: Vec<&'static str> = Vec::new();
    let mut i: usize = 0;
    while i < ds.len()
        invariant
            i <= ds@.len(),
            views(v@) == crate::said::member_candidates(ds@.subrange(0, i as int)),
        decreases ds@.len() - i,
    {
        let ms = env::members(ds[i]);
        let ghost start = views(v@);
        let ghost d = ds@[i as int];
        let mut k: usize = 0;
        while k < ms.len()
            invariant
                k <= ms@.len(),
                ms@.len() == env::member_count(d),
                forall|q: int| 0 <= q < ms@.len() ==> (#[trigger] ms@[q]).name@ == env::member_spec(d, q),
                views(v@) == start + Seq::new(k as nat, |q: int| env::member_spec(d, q)),
            decreases ms@.len() - k,
        {
            let ghost before = v@;
            v.push(ms[k].name);
            assert(views(v@) =~= start + Seq::new((k + 1) as nat, |q: int| env::member_spec(d, q))) by {
                assert(views(v@) =~= views(before).push(v@[v@.len() - 1]@));
            }
            k += 1;
        }
        assert(ds@.subrange(0, i + 1).drop_last() =~= ds@.subrange(0, i as int));
        assert(ds@.subrange(0, i + 1).last() == d);
        i += 1;
    }
    assert(ds@.subrange(0, ds@.len() as int) =~= ds@);
    v
}

/// Adds a `let` binding, rejecting anything that would shadow. A rule where
/// `cash` means something else is the confusion this language exists to
/// prevent.
pub fn bind(
    scope: &mut Vec<(String, Type)>,
    params: &Vec<(String, Type)>,
    diags: &mut Vec<Diagnostic>,
    name: &Name,
    ty: Type,
)
    requires
        all_errors(old(diags)@),
    ensures
        reports(old(diags)@, final(diags)@, bind_ok(named_view(params@), named_view(old(scope)@), name.text@)),
        bind_ok(named_view(params@), named_view(old(scope)@), name.text@) ==> named_view(final(scope)@)
            == named_view(old(scope)@).push((name.text@, ty)),
        !bind_ok(named_view(params@), named_view(old(scope)@), name.text@) ==> final(scope)@ == old(scope)@,
        said(final(diags)@) == said(old(diags)@) + said_bind(named_view(params@), named_view(old(scope)@), *name),
        final(diags)@.len() == old(diags)@.len() + if bind_ok(named_view(params@), named_view(old(scope)@), name.text@) {
            0int
        } else {
            1int
        },
{
    let text = name.text.as_str();
    if let Some(why) = reserved(text) {
        let mut m = why;
        m.append(" and cannot be rebound");
        push_error(diags, name.span, m);
        return;
    }
    // Lowering resolves the scope before the parameters, so without this a
    // shadowed name would mean whatever the passes happened to do.
    if find_named(params, text).is_some() {
        let mut m = String::from_str("`");
        m.append(text);
        m.append("` is a parameter and cannot be rebound");
        push_error(diags, name.span, m);
        return;
    }
    if find_named(scope, text).is_some() {
        let mut m = String::from_str("`");
        m.append(text);
        m.append("` is already bound in this rule");
        push_error(diags, name.span, m);
        return;
    }
    let ghost before = named_view(scope@);
    scope.push((name.text.clone(), ty));
    assert(named_view(scope@) =~= before.push((name.text@, ty)));
}

// ---- expressions ----
//
// The measure is the expression, then a rank: a function may call one of lower
// rank on the same expression, and any of them on a smaller one.

/// Bottom-up: the type this expression has.
///
/// Returns `Type::Error` on failure, having already reported. `Error` is
/// compatible with everything, so one mistake yields one message.
pub fn synth(ctx: &Ctx, diags: &mut Vec<Diagnostic>, e: &Expr) -> (t: Type)
    requires
        all_errors(old(diags)@),
    ensures
        t == synth_spec(names_of(*ctx), *e).0,
        reports(old(diags)@, final(diags)@, synth_spec(names_of(*ctx), *e).1),
        said(final(diags)@) == said(old(diags)@) + said_synth(names_of(*ctx), what_of(*ctx), *e),
    decreases e, 4nat,
{
    match &e.kind {
        ExprKind::Int(_) => Type::Int,
        ExprKind::Float(_) => Type::Float,
        ExprKind::Ident(name) => ident(ctx, diags, name.text.as_str(), name.span),
        // The parser already reported.
        ExprKind::Error => Type::Error,
        ExprKind::Call(n, args) => {
            let name = n.text.as_str();
            if str_eq(name, env::COUNT) {
                if let Phase::Static(what) = ctx.phase {
                    return not_static(diags, what, name, n.span);
                }
                count(ctx, diags, e, n.span)
            } else if let Some(k) = find_def(ctx.defs, name) {
                // Inlined at lowering, so a def is exactly as static as its
                // body and arguments — no phase rule of its own.
                let sig = &ctx.defs[k];
                let mut want: Vec<ParamType> = Vec::new();
                let mut i: usize = 0;
                while i < sig.params.len()
                    invariant
                        i <= sig.params@.len(),
                        want@.len() == i,
                        forall|j: int| 0 <= j < i ==> param_view(#[trigger] want@[j]) == ParamSpec::Exact(sig.params@[j]),
                    decreases sig.params@.len() - i,
                {
                    want.push(ParamType::Exact(sig.params[i].duplicate()));
                    i += 1;
                }
                assert(params_view(want@) =~= sig.params@.map_values(|t: Type| ParamSpec::Exact(t)));
                call(ctx, diags, e, &want, &sig.ret)
            } else if let Some(sig) = env::builtin(name) {
                // Legal in either phase: a builtin reads no state, which is the
                // whole reason it is not a predicate.
                call(ctx, diags, e, &sig.params, &sig.ret)
            } else if let Some(sig) = env::predicate(name) {
                if let Phase::Static(what) = ctx.phase {
                    return not_static(diags, what, name, n.span);
                }
                call(ctx, diags, e, &sig.params, &sig.ret)
            } else {
                let mut m = String::from_str("unknown predicate `");
                m.append(name);
                m.append("`");
                push_error(diags, n.span, m);
                Type::Error
            }
        },
        ExprKind::Unary(op, operand) => match op {
            UnOp::Not => {
                check_expr(ctx, diags, operand, &Type::Bool);
                Type::Bool
            },
            UnOp::Neg => {
                let t = synth(ctx, diags, operand);
                if t.is_numeric() {
                    t
                } else {
                    let mut m = String::from_str("cannot negate ");
                    m.append(t.describe().as_str());
                    push_error(diags, operand.span, m);
                    Type::Error
                }
            },
            // Why optionals are their own type: expr lets `nearest-enemy`
            // stand in for a bool, and this does not.
            UnOp::Exists => {
                let t = synth(ctx, diags, operand);
                match t {
                    Type::Option(_) => Type::Bool,
                    Type::Error => Type::Error,
                    _ => {
                        let mut m = String::from_str("`exists` needs an optional value, found ");
                        m.append(t.describe().as_str());
                        push_error(diags, operand.span, m);
                        Type::Error
                    },
                }
            },
        },
        ExprKind::Binary(op, left, right) => match op {
            BinOp::And | BinOp::Or => {
                check_expr(ctx, diags, left, &Type::Bool);
                check_expr(ctx, diags, right, &Type::Bool);
                Type::Bool
            },
            BinOp::Eq | BinOp::NotEq => {
                let lt = synth(ctx, diags, left);
                let rt = synth(ctx, diags, right);
                if reject_optional(diags, &lt, &rt, e.span) && !lt.compatible(&rt) {
                    let mut m = String::from_str("cannot compare ");
                    m.append(lt.describe().as_str());
                    m.append(" with ");
                    m.append(rt.describe().as_str());
                    push_error(diags, e.span, m);
                }
                // A comparison is a bool whatever its operands were, and saying
                // so keeps one mistake to one message.
                Type::Bool
            },
            // Ordering needs numbers where equality does not.
            BinOp::Lt | BinOp::LtEq | BinOp::Gt | BinOp::GtEq => {
                let lt = synth(ctx, diags, left);
                let rt = synth(ctx, diags, right);
                if reject_optional(diags, &lt, &rt, e.span) {
                    if !lt.is_numeric() || !rt.is_numeric() {
                        let mut m = String::from_str("cannot order ");
                        m.append(lt.describe().as_str());
                        m.append(" and ");
                        m.append(rt.describe().as_str());
                        push_error(diags, e.span, m);
                    } else if !lt.compatible(&rt) {
                        let mut m = String::from_str("cannot compare ");
                        m.append(lt.describe().as_str());
                        m.append(" with ");
                        m.append(rt.describe().as_str());
                        push_error(diags, e.span, m);
                    }
                }
                Type::Bool
            },
            BinOp::Add | BinOp::Sub | BinOp::Mul | BinOp::Div => {
                let lt = synth(ctx, diags, left);
                let rt = synth(ctx, diags, right);
                if !lt.is_numeric() || !rt.is_numeric() {
                    let mut m = String::from_str("arithmetic needs numbers, found ");
                    m.append(lt.describe().as_str());
                    m.append(" and ");
                    m.append(rt.describe().as_str());
                    push_error(diags, e.span, m);
                    return Type::Error;
                }
                // Widening, so `cash * 0.5` works.
                if matches!(lt, Type::Float) || matches!(rt, Type::Float) {
                    Type::Float
                } else {
                    Type::Int
                }
            },
        },
    }
}

/// Reports an optional used as a value, returning whether checking should
/// continue — so one mistake does not also produce a comparison error.
fn reject_optional(diags: &mut Vec<Diagnostic>, lt: &Type, rt: &Type, span: Span) -> (go_on: bool)
    requires
        all_errors(old(diags)@),
    ensures
        reports(old(diags)@, final(diags)@, go_on),
        go_on == !(lt is Option || rt is Option),
        said(final(diags)@) == said(old(diags)@) + if go_on {
            Seq::empty()
        } else {
            one("use `exists` to test an optional value"@, span)
        },
{
    if matches!(lt, Type::Option(_)) || matches!(rt, Type::Option(_)) {
        push_error(diags, span, String::from_str("use `exists` to test an optional value"));
        return false;
    }
    true
}

/// Top-down: whether this expression fits an expected type.
///
/// Bare enum literals cannot be synthesised — `powr` has no type until a
/// parameter says it is a building — so a name in an enum position is looked up
/// in that domain, and one that is not there is always reported.
pub fn check_expr(ctx: &Ctx, diags: &mut Vec<Diagnostic>, e: &Expr, want: &Type)
    requires
        all_errors(old(diags)@),
    ensures
        reports(old(diags)@, final(diags)@, check_expr_spec(names_of(*ctx), *e, *want)),
        said(final(diags)@) == said(old(diags)@) + said_check_expr(names_of(*ctx), what_of(*ctx), *e, *want),
        match (want, e.kind) {
            (Type::Enum(d), ExprKind::Ident(n)) => !env::is_member(*d, n.text@)
                ==> final(diags)@.len() > old(diags)@.len(),
            _ => true,
        },
    decreases e, 5nat,
{
    if let (Type::Enum(domain), ExprKind::Ident(name)) = (want, &e.kind) {
        let text = name.text.as_str();
        if env::member(*domain, text).is_none() {
            let mut m = String::from_str("unknown ");
            m.append(domain.name());
            m.append(": `");
            m.append(text);
            m.append("`");
            let mut ds: Vec<Domain> = Vec::new();
            ds.push(*domain);
            let note = suggest(text, &member_candidates(&ds));
            m.append(note.as_str());
            push_error(diags, name.span, m);
        }
        return;
    }
    let got = synth(ctx, diags, e);
    if !got.compatible(want) {
        let mut m = String::from_str("expected ");
        m.append(want.describe().as_str());
        m.append(", found ");
        m.append(got.describe().as_str());
        push_error(diags, e.span, m);
    }
}

/// An argument, whose expected type may span several domains.
///
/// A numeric argument belongs to the static phase: a predicate call is keyed by
/// its arguments and an action's are written into text the engine looks up, so
/// neither can wait for a tick to learn what one is.
pub fn check_arg(ctx: &Ctx, diags: &mut Vec<Diagnostic>, e: &Expr, want: &ParamType)
    requires
        all_errors(old(diags)@),
    ensures
        reports(old(diags)@, final(diags)@, check_arg_spec(names_of(*ctx), *e, param_view(*want))),
        said(final(diags)@) == said(old(diags)@) + said_check_arg(
            names_of(*ctx),
            what_of(*ctx),
            *e,
            param_view(*want),
        ),
    decreases e, 6nat,
{
    match want {
        ParamType::AnyOf(ds) => {
            // `AnyOf` only occurs in enum positions, so this must be a name.
            if let ExprKind::Ident(name) = &e.kind {
                let text = name.text.as_str();
                if env::resolve_param_member(want, text).is_err() {
                    let mut m = String::from_str("unknown ");
                    m.append(want.describe().as_str());
                    m.append(": `");
                    m.append(text);
                    m.append("`");
                    let note = suggest(text, &member_candidates(ds));
                    m.append(note.as_str());
                    push_error(diags, name.span, m);
                }
            } else {
                let got = synth(ctx, diags, e);
                let mut m = String::from_str("expected ");
                m.append(want.describe().as_str());
                m.append(", found ");
                m.append(got.describe().as_str());
                push_error(diags, e.span, m);
            }
        },
        ParamType::Exact(t) => {
            let inner = Ctx {
                params: ctx.params,
                defs: ctx.defs,
                scope: ctx.scope,
                phase: Phase::Static("an argument"),
            };
            assert(names_of(inner) == fixed(names_of(*ctx)));
            check_expr(&inner, diags, e, t);
        },
    }
}

/// A bare name: a `let` binding, a parameter, or a zero-argument predicate.
fn ident(ctx: &Ctx, diags: &mut Vec<Diagnostic>, name: &str, span: Span) -> (t: Type)
    requires
        all_errors(old(diags)@),
    ensures
        t == ident_spec(names_of(*ctx), name@).0,
        reports(old(diags)@, final(diags)@, ident_spec(names_of(*ctx), name@).1),
        said(final(diags)@) == said(old(diags)@) + said_ident(names_of(*ctx), what_of(*ctx), name@, span),
{
    // No bindings exist in the static phase: a priority is checked before the
    // rule's `let`s, precisely because it may not see them.
    if let Phase::Tick = ctx.phase {
        if let Some(i) = find_named(ctx.scope, name) {
            return ctx.scope[i].1.duplicate();
        }
    }
    if let Some(i) = find_named(ctx.params, name) {
        return ctx.params[i].1.duplicate();
    }
    if let Some(sig) = env::predicate(name) {
        if let Phase::Static(what) = ctx.phase {
            return not_static(diags, what, name, span);
        }
        if sig.params.len() == 0 {
            return sig.ret;
        }
        let mut m = String::from_str("`");
        m.append(name);
        m.append("` takes ");
        m.append(usize_text(sig.params.len()).as_str());
        m.append(" argument(s); write `");
        m.append(name);
        m.append("(...)`");
        push_error(diags, span, m);
        return Type::Error;
    }
    // Outside an argument position there is nothing to say which domain an
    // enum literal belongs to.
    let domains = env::domains_containing(name);
    if domains.len() > 0 {
        let mut m = String::from_str("`");
        m.append(name);
        m.append("` is a ");
        m.append(domains[0].name());
        m.append(" and only means something as an argument");
        push_error(diags, span, m);
        return Type::Error;
    }
    let mut m = String::from_str("unknown name `");
    m.append(name);
    m.append("`");
    let note = suggest(name, &name_candidates(ctx.scope));
    m.append(note.as_str());
    push_error(diags, span, m);
    Type::Error
}

/// Arity and arguments for anything with a fixed signature — a def, a builtin
/// or a predicate. They differ in what they may read, not in how they are
/// called. `e` is the call.
#[verifier::loop_isolation(false)]
fn call(ctx: &Ctx, diags: &mut Vec<Diagnostic>, e: &Expr, want: &Vec<ParamType>, ret: &Type) -> (t: Type)
    requires
        all_errors(old(diags)@),
    ensures
        t == call_spec(names_of(*ctx), *e, params_view(want@), *ret).0,
        reports(old(diags)@, final(diags)@, call_spec(names_of(*ctx), *e, params_view(want@), *ret).1),
        said(final(diags)@) == said(old(diags)@) + said_call(
            names_of(*ctx),
            what_of(*ctx),
            *e,
            params_view(want@),
        ),
    decreases e, 3nat,
{
    let (name, args) = match &e.kind {
        ExprKind::Call(n, args) => (n, args),
        _ => {
            return Type::Error;
        },
    };
    if args.len() != want.len() {
        let mut m = String::from_str("`");
        m.append(name.text.as_str());
        m.append("` expects ");
        m.append(usize_text(want.len()).as_str());
        m.append(" argument(s), got ");
        m.append(usize_text(args.len()).as_str());
        push_error(diags, name.span, m);
        // Arguments left unchecked on purpose: pairing them against parameters
        // at the wrong count reports about ones merely in the wrong slot.
        return Type::Error;
    }
    let ghost names = names_of(*ctx);
    let ghost wv = params_view(want@);
    let mut i: usize = 0;
    while i < args.len()
        invariant
            grows(old(diags)@, diags@),
            i <= args@.len(),
            args@.len() == want@.len(),
            names == names_of(*ctx),
            wv == params_view(want@),
            (diags@.len() == old(diags)@.len()) == args_ok(names, args@, wv, i as int),
            said(diags@) == said(old(diags)@) + said_args(names, what_of(*ctx), args@, wv, i as int),
        decreases args@.len() - i,
    {
        assert(param_view(want@[i as int]) == wv[i as int]);
        check_arg(ctx, diags, &args[i], &want[i]);
        proof {
            let w = what_of(*ctx);
            lemma_said_join(
                said(old(diags)@),
                said_args(names, w, args@, wv, i as int),
                said_check_arg(names, w, args@[i as int], wv[i as int]),
            );
        }
        i += 1;
    }
    ret.duplicate()
}

/// Reading game state where only a doctrine is available.
fn not_static(diags: &mut Vec<Diagnostic>, what: &str, name: &str, span: Span) -> (t: Type)
    requires
        all_errors(old(diags)@),
    ensures
        grows(old(diags)@, final(diags)@),
        final(diags)@.len() == old(diags)@.len() + 1,
        said(final(diags)@) == said(old(diags)@) + one(not_static_text(what@, name@), span),
        t is Error,
{
    let mut m = String::from_str(what);
    m.append(" is fixed when the doctrine lands, so it cannot read `");
    m.append(name);
    m.append("`");
    push_error(diags, span, m);
    Type::Error
}

/// Overloaded across buildings, units and collections. `e` is the call.
fn count(ctx: &Ctx, diags: &mut Vec<Diagnostic>, e: &Expr, span: Span) -> (t: Type)
    requires
        all_errors(old(diags)@),
    ensures
        t == count_spec(names_of(*ctx), *e).0,
        reports(old(diags)@, final(diags)@, count_spec(names_of(*ctx), *e).1),
        said(final(diags)@) == said(old(diags)@) + said_count(names_of(*ctx), what_of(*ctx), *e, span),
    decreases e, 3nat,
{
    let args = match &e.kind {
        ExprKind::Call(_, args) => args,
        _ => {
            return Type::Error;
        },
    };
    if args.len() != 1 {
        let mut m = String::from_str("`count` expects 1 argument, got ");
        m.append(usize_text(args.len()).as_str());
        push_error(diags, span, m);
        return Type::Error;
    }
    let arg = &args[0];
    // A bare building or unit name counts instances of that type. Anything else
    // must produce a collection.
    if let ExprKind::Ident(name) = &arg.kind {
        let text = name.text.as_str();
        let building = env::member_index(Domain::BuildingType, text).is_some();
        let unit = env::member_index(Domain::UnitType, text).is_some();
        if building && unit {
            // Never a silent pick.
            let mut m = String::from_str("`");
            m.append(text);
            m.append("` is ambiguous across domains");
            push_error(diags, name.span, m);
            return Type::Error;
        }
        if building || unit {
            return Type::Int;
        }
    }
    let t = synth(ctx, diags, arg);
    match t {
        Type::Collection => Type::Int,
        Type::Error => Type::Error,
        _ => {
            let mut m = String::from_str("`count` needs a collection or a type name, found ");
            m.append(t.describe().as_str());
            push_error(diags, arg.span, m);
            Type::Error
        },
    }
}

} // verus!
