//! The fold-time pass: a rule set plus a doctrine, minus everything that
//! doctrine settles.
//!
//! A doctrine gate is an ordinary `require`, so once the doctrine's numbers
//! are folded in, a gate becomes a constant. A rule whose gate is false must
//! not merely never fire — it must not be there, as a rule set compiled for a
//! land doctrine has no naval rules at all. So a constant conjunct is settled
//! here: false drops the rule, true drops the conjunct. A gate is often only
//! part of a conjunct, so constants are also absorbed through `and` and `or`:
//! `true or x` is `true`, `false or x` is `x`.
//!
//! Deciding which conjuncts are constant is numeric evaluation of doctrine
//! values; it happens before this pass, which sees its outcome as `Bool`
//! nodes. Everything that reads game state is left exactly as it was, because
//! only a tick can answer it.
use crate::ast::BinOp;
use crate::ir::{Ir, IrExpr, IrExprKind, IrRule};
use vstd::prelude::*;

verus! {

/// Whether an expression can be decided without game state: it is built from
/// literals and doctrine parameters alone.
///
/// A binding counts as non-static even when its value is: `let` is
/// rule-scoped, and resolving one here would mean carrying the scope through
/// the walk.
pub open spec fn is_static_spec(e: IrExpr) -> bool
    decreases e,
{
    match e.kind {
        IrExprKind::Int(_) => true,
        IrExprKind::Float(_) => true,
        IrExprKind::Bool(_) => true,
        IrExprKind::Param(_) => true,
        IrExprKind::Builtin(_, args) => all_static(args@),
        IrExprKind::Unary(_, x) => is_static_spec(*x),
        IrExprKind::Binary(_, l, r) => is_static_spec(*l) && is_static_spec(*r),
        IrExprKind::Predicate(_, _) => false,
        IrExprKind::Member(_, _) => false,
        IrExprKind::Binding(_) => false,
    }
}

/// A conjunct's doctrine gates, left to right: the conjunct itself where it
/// is static, else the gates of the operands of its `and` or `or`.
pub open spec fn gates(e: IrExpr) -> Seq<IrExpr>
    decreases e,
{
    if is_static_spec(e) {
        seq![e]
    } else {
        match e.kind {
            IrExprKind::Binary(op, l, r) => if op == BinOp::And || op == BinOp::Or {
                gates(*l) + gates(*r)
            } else {
                Seq::empty()
            },
            _ => Seq::empty(),
        }
    }
}

/// A conjunct with its gates, left to right, set to the constants `vals`;
/// each constant takes its gate's span.
pub open spec fn with_gates(e: IrExpr, vals: Seq<bool>) -> IrExpr
    decreases e,
{
    if is_static_spec(e) {
        IrExpr { kind: IrExprKind::Bool(vals[0]), span: e.span }
    } else {
        match e.kind {
            IrExprKind::Binary(op, l, r) => if op == BinOp::And || op == BinOp::Or {
                let n = gates(*l).len() as int;
                IrExpr {
                    kind: IrExprKind::Binary(
                        op,
                        Box::new(with_gates(*l, vals.take(n))),
                        Box::new(with_gates(*r, vals.skip(n))),
                    ),
                    span: e.span,
                }
            } else {
                e
            },
            _ => e,
        }
    }
}

/// Appends the gates of a conjunct, left to right, for the caller to decide.
pub fn collect_gates<'a>(e: &'a IrExpr, out: &mut Vec<&'a IrExpr>)
    ensures
        final(out)@.len() == old(out)@.len() + gates(*e).len(),
        forall|k: int| 0 <= k < old(out)@.len() ==> final(out)@[k] == old(out)@[k],
        forall|k: int| 0 <= k < gates(*e).len() ==> *final(out)@[old(out)@.len() + k] == gates(*e)[k],
    decreases e,
{
    if is_static(e) {
        out.push(e);
        return;
    }
    match &e.kind {
        IrExprKind::Binary(op, l, r) => {
            if *op == BinOp::And || *op == BinOp::Or {
                let ghost start = out@;
                collect_gates(l, out);
                let ghost mid = out@;
                collect_gates(r, out);
                proof {
                    let gl = gates(**l);
                    let gr = gates(**r);
                    assert forall|k: int| 0 <= k < gates(*e).len() implies *out@[start.len() + k] == gates(*e)[k] by {
                        if k < gl.len() {
                            assert(out@[start.len() + k] == mid[start.len() + k]);
                        } else {
                            assert(out@[mid.len() + (k - gl.len())] == out@[start.len() + k]);
                        }
                    }
                }
            }
        },
        _ => {},
    }
}

/// Replaces the gates of a conjunct, from position `at` of `vals` on, by
/// those constants; gives back the conjunct and where the next gate's value
/// is.
fn settle_from(e: IrExpr, vals: &Vec<bool>, at: usize) -> (r: (IrExpr, usize))
    requires
        at + gates(e).len() <= vals@.len(),
    ensures
        r.1 == at + gates(e).len(),
        r.0 == with_gates(e, vals@.subrange(at as int, r.1 as int)),
    decreases e,
{
    if is_static(&e) {
        assert(gates(e) == seq![e]);
        assert(at < vals.len());
        return (IrExpr { kind: IrExprKind::Bool(vals[at]), span: e.span }, at + 1);
    }
    let span = e.span;
    let ghost whole = e;
    match e.kind {
        IrExprKind::Binary(op, l, r) => {
            if op == BinOp::And || op == BinOp::Or {
                let ghost gl = gates(*l);
                let (l2, mid) = settle_from(*l, vals, at);
                let (r2, end) = settle_from(*r, vals, mid);
                proof {
                    let vs = vals@.subrange(at as int, end as int);
                    assert(vs.take(gl.len() as int) =~= vals@.subrange(at as int, mid as int));
                    assert(vs.skip(gl.len() as int) =~= vals@.subrange(mid as int, end as int));
                }
                (IrExpr { kind: IrExprKind::Binary(op, Box::new(l2), Box::new(r2)), span }, end)
            } else {
                (IrExpr { kind: IrExprKind::Binary(op, l, r), span }, at)
            }
        },
        kind => (IrExpr { kind, span }, at),
    }
}

/// Replaces each doctrine gate of a conjunct, left to right, by the constant
/// the caller decided it is.
pub fn settle_gates(e: IrExpr, vals: &Vec<bool>) -> (r: IrExpr)
    requires
        vals@.len() == gates(e).len(),
    ensures
        r == with_gates(e, vals@),
{
    let (r, _) = settle_from(e, vals, 0);
    assert(vals@.subrange(0, vals@.len() as int) =~= vals@);
    r
}

/// Whether every one of `args` is static.
pub open spec fn all_static(args: Seq<IrExpr>) -> bool
    decreases args,
{
    if args.len() == 0 {
        true
    } else {
        all_static(args.subrange(0, args.len() - 1)) && is_static_spec(args[args.len() - 1])
    }
}

/// Whether this expression can be decided without game state.
#[verifier::loop_isolation(false)]
pub fn is_static(e: &IrExpr) -> (r: bool)
    ensures
        r == is_static_spec(*e),
    decreases e,
{
    match &e.kind {
        IrExprKind::Int(_) | IrExprKind::Float(_) | IrExprKind::Bool(_) | IrExprKind::Param(_) => true,
        IrExprKind::Predicate(..) | IrExprKind::Member(..) | IrExprKind::Binding(_) => false,
        IrExprKind::Builtin(_, args) => {
            let mut i: usize = 0;
            while i < args.len()
                invariant
                    i <= args@.len(),
                    forall|j: int| 0 <= j < i ==> #[trigger] is_static_spec(args@[j]),
                decreases args@.len() - i,
            {
                if !is_static(&args[i]) {
                    proof {
                        lemma_all_static(args@);
                    }
                    return false;
                }
                i += 1;
            }
            proof {
                lemma_all_static(args@);
            }
            true
        },
        IrExprKind::Unary(_, operand) => is_static(operand),
        IrExprKind::Binary(_, l, r) => is_static(l) && is_static(r),
    }
}

proof fn lemma_all_static(args: Seq<IrExpr>)
    ensures
        all_static(args) <==> forall|j: int| 0 <= j < args.len() ==> #[trigger] is_static_spec(args[j]),
    decreases args.len(),
{
    if args.len() > 0 {
        let n = args.len() - 1;
        let front = args.subrange(0, n);
        lemma_all_static(front);
        if all_static(args) {
            assert forall|j: int| 0 <= j < args.len() implies #[trigger] is_static_spec(args[j]) by {
                if j < n {
                    assert(front[j] == args[j]);
                    assert(is_static_spec(front[j]));
                }
            }
        }
        if forall|j: int| 0 <= j < args.len() ==> #[trigger] is_static_spec(args[j]) {
            assert forall|j: int| 0 <= j < front.len() implies #[trigger] is_static_spec(front[j]) by {
                assert(front[j] == args[j]);
                assert(is_static_spec(args[j]));
            }
            assert(is_static_spec(args[n]));
        }
    }
}

/// The boolean constant `b`.
pub open spec fn is_const(e: IrExpr, b: bool) -> bool {
    e.kind matches IrExprKind::Bool(x) && x == b
}

/// Constants absorbed through `and` and `or`, bottom up.
pub open spec fn absorb_spec(e: IrExpr) -> IrExpr
    decreases e,
{
    match e.kind {
        IrExprKind::Binary(op, l, r) => {
            let l2 = absorb_spec(*l);
            let r2 = absorb_spec(*r);
            if op == BinOp::Or && (is_const(l2, true) || is_const(r2, true)) {
                IrExpr { kind: IrExprKind::Bool(true), span: e.span }
            } else if op == BinOp::Or && is_const(l2, false) {
                r2
            } else if op == BinOp::Or && is_const(r2, false) {
                l2
            } else if op == BinOp::And && (is_const(l2, false) || is_const(r2, false)) {
                IrExpr { kind: IrExprKind::Bool(false), span: e.span }
            } else if op == BinOp::And && is_const(l2, true) {
                r2
            } else if op == BinOp::And && is_const(r2, true) {
                l2
            } else {
                IrExpr { kind: IrExprKind::Binary(op, Box::new(l2), Box::new(r2)), span: e.span }
            }
        },
        _ => e,
    }
}

fn const_of(e: &IrExpr) -> (r: Option<bool>)
    ensures
        r == Some(true) <==> is_const(*e, true),
        r == Some(false) <==> is_const(*e, false),
{
    match &e.kind {
        IrExprKind::Bool(b) => Some(*b),
        _ => None,
    }
}

/// No `and` or `or` anywhere in the operators of `e`.
pub open spec fn logic_free(e: IrExpr) -> bool
    decreases e,
{
    match e.kind {
        IrExprKind::Binary(op, l, r) => op != BinOp::And && op != BinOp::Or && logic_free(*l) && logic_free(*r),
        _ => true,
    }
}

/// `e` is `and`s and `or`s over constants and leaves with no `and` or `or`
/// inside them, which is what a condition is.
pub open spec fn plain_leaves(e: IrExpr) -> bool
    decreases e,
{
    match e.kind {
        IrExprKind::Binary(op, l, r) => if op == BinOp::And || op == BinOp::Or {
            plain_leaves(*l) && plain_leaves(*r)
        } else {
            logic_free(e)
        },
        _ => true,
    }
}

/// The truth of a condition, given the truth of each leaf that is neither a
/// constant nor an `and` or `or`.
pub open spec fn truth(e: IrExpr, leaf: spec_fn(IrExpr) -> bool) -> bool
    decreases e,
{
    match e.kind {
        IrExprKind::Bool(b) => b,
        IrExprKind::Binary(op, l, r) => if op == BinOp::And {
            truth(*l, leaf) && truth(*r, leaf)
        } else if op == BinOp::Or {
            truth(*l, leaf) || truth(*r, leaf)
        } else {
            leaf(e)
        },
        _ => leaf(e),
    }
}

/// Absorbing leaves an expression with no `and` or `or` exactly as it was.
pub proof fn lemma_absorb_leaves_leaves(e: IrExpr)
    requires
        logic_free(e),
    ensures
        absorb_spec(e) == e,
    decreases e,
{
    if let IrExprKind::Binary(op, l, r) = e.kind {
        lemma_absorb_leaves_leaves(*l);
        lemma_absorb_leaves_leaves(*r);
    }
}

/// Absorbing constants never changes what a condition means: however its
/// leaves come out, the absorbed condition holds exactly when the original
/// does. So `true and x` becomes something as true as `x`, and `false or x`
/// something as true as `x`.
pub proof fn lemma_absorb_keeps_meaning(e: IrExpr, leaf: spec_fn(IrExpr) -> bool)
    requires
        plain_leaves(e),
    ensures
        truth(absorb_spec(e), leaf) == truth(e, leaf),
        plain_leaves(absorb_spec(e)),
    decreases e,
{
    match e.kind {
        IrExprKind::Binary(op, l, r) => {
            if op == BinOp::And || op == BinOp::Or {
                lemma_absorb_keeps_meaning(*l, leaf);
                lemma_absorb_keeps_meaning(*r, leaf);
            } else {
                lemma_absorb_leaves_leaves(e);
            }
        },
        _ => {},
    }
}

/// Every condition holds.
pub open spec fn all_hold(reqs: Seq<IrExpr>, leaf: spec_fn(IrExpr) -> bool) -> bool {
    forall|i: int| 0 <= i < reqs.len() ==> truth(#[trigger] reqs[i], leaf)
}

/// Settling a rule's conditions never changes when the rule fires: a rule
/// that survives fires on its settled conditions exactly when it fired on
/// the originals, and a rule that does not survive could never fire.
pub proof fn lemma_settling_keeps_meaning(reqs: Seq<IrExpr>, leaf: spec_fn(IrExpr) -> bool)
    requires
        forall|i: int| 0 <= i < reqs.len() ==> plain_leaves(#[trigger] reqs[i]),
    ensures
        (forall|i: int| 0 <= i < reqs.len() ==> !is_const(#[trigger] absorb_spec(reqs[i]), false)) ==> all_hold(
            settled(reqs),
            leaf,
        ) == all_hold(reqs, leaf),
        !(forall|i: int| 0 <= i < reqs.len() ==> !is_const(#[trigger] absorb_spec(reqs[i]), false)) ==> !all_hold(
            reqs,
            leaf,
        ),
    decreases reqs.len(),
{
    if reqs.len() > 0 {
        let front = reqs.drop_last();
        let last = reqs.last();
        assert forall|i: int| 0 <= i < front.len() implies plain_leaves(#[trigger] front[i]) by {
            assert(front[i] == reqs[i]);
        }
        lemma_settling_keeps_meaning(front, leaf);
        lemma_absorb_keeps_meaning(last, leaf);
        let a = absorb_spec(last);
        let n = reqs.len() - 1;
        assert(reqs[n] == last);
        if forall|i: int| 0 <= i < reqs.len() ==> !is_const(#[trigger] absorb_spec(reqs[i]), false) {
            assert forall|i: int| 0 <= i < front.len() implies !is_const(#[trigger] absorb_spec(front[i]), false) by {
                assert(front[i] == reqs[i]);
                assert(!is_const(absorb_spec(reqs[i]), false));
            }
            let rest = settled(front);
            assert(all_hold(reqs, leaf) == (all_hold(front, leaf) && truth(last, leaf))) by {
                if all_hold(front, leaf) && truth(last, leaf) {
                    assert forall|i: int| 0 <= i < reqs.len() implies truth(#[trigger] reqs[i], leaf) by {
                        if i < n {
                            assert(reqs[i] == front[i]);
                        }
                    }
                }
                if all_hold(reqs, leaf) {
                    assert(truth(reqs[n], leaf));
                    assert forall|i: int| 0 <= i < front.len() implies truth(#[trigger] front[i], leaf) by {
                        assert(reqs[i] == front[i]);
                        assert(truth(reqs[i], leaf));
                    }
                }
            }
            if is_const(a, true) {
                assert(settled(reqs) == rest);
            } else {
                assert(settled(reqs) == rest.push(a));
                assert(all_hold(rest.push(a), leaf) == (all_hold(rest, leaf) && truth(a, leaf))) by {
                    let p = rest.push(a);
                    if all_hold(rest, leaf) && truth(a, leaf) {
                        assert forall|i: int| 0 <= i < p.len() implies truth(#[trigger] p[i], leaf) by {
                            if i < rest.len() {
                                assert(p[i] == rest[i]);
                            }
                        }
                    }
                    if all_hold(p, leaf) {
                        assert(truth(p[rest.len() as int], leaf));
                        assert forall|i: int| 0 <= i < rest.len() implies truth(#[trigger] rest[i], leaf) by {
                            assert(p[i] == rest[i]);
                            assert(truth(p[i], leaf));
                        }
                    }
                }
            }
        } else {
            let i = choose|i: int| 0 <= i < reqs.len() && is_const(#[trigger] absorb_spec(reqs[i]), false);
            lemma_absorb_keeps_meaning(reqs[i], leaf);
            assert(!truth(reqs[i], leaf));
        }
    }
}

/// Absorbs the constants in one expression.
pub fn absorb(e: IrExpr) -> (r: IrExpr)
    ensures
        r == absorb_spec(e),
    decreases e,
{
    let IrExpr { kind, span } = e;
    match kind {
        IrExprKind::Binary(op, l, r) => {
            let l2 = absorb(*l);
            let r2 = absorb(*r);
            let lc = const_of(&l2);
            let rc = const_of(&r2);
            match op {
                BinOp::Or => {
                    if lc == Some(true) || rc == Some(true) {
                        return IrExpr { kind: IrExprKind::Bool(true), span };
                    }
                    if lc == Some(false) {
                        return r2;
                    }
                    if rc == Some(false) {
                        return l2;
                    }
                },
                BinOp::And => {
                    if lc == Some(false) || rc == Some(false) {
                        return IrExpr { kind: IrExprKind::Bool(false), span };
                    }
                    if lc == Some(true) {
                        return r2;
                    }
                    if rc == Some(true) {
                        return l2;
                    }
                },
                _ => {},
            }
            IrExpr { kind: IrExprKind::Binary(op, Box::new(l2), Box::new(r2)), span }
        },
        other => IrExpr { kind: other, span },
    }
}

/// A rule survives unless one of its conjuncts settles to false.
pub open spec fn survives(r: IrRule) -> bool {
    forall|i: int| 0 <= i < r.requires@.len() ==> !is_const(#[trigger] absorb_spec(r.requires@[i]), false)
}

/// A surviving rule's conjuncts once settled: each absorbed, and those that
/// became true dropped.
pub open spec fn settled(reqs: Seq<IrExpr>) -> Seq<IrExpr>
    decreases reqs.len(),
{
    if reqs.len() == 0 {
        Seq::empty()
    } else {
        let rest = settled(reqs.drop_last());
        let last = absorb_spec(reqs.last());
        if is_const(last, true) {
            rest
        } else {
            rest.push(last)
        }
    }
}

/// The rules that survive, in their original order.
pub open spec fn survivors(rules: Seq<IrRule>) -> Seq<IrRule>
    decreases rules.len(),
{
    if rules.len() == 0 {
        Seq::empty()
    } else {
        let rest = survivors(rules.drop_last());
        if survives(rules.last()) {
            rest.push(rules.last())
        } else {
            rest
        }
    }
}

/// `r` with its conjuncts replaced by `reqs`.
pub open spec fn with_requires(r: IrRule, reqs: Vec<IrExpr>) -> IrRule {
    IrRule {
        name: r.name,
        priority: r.priority,
        category: r.category,
        exclusive: r.exclusive,
        because: r.because,
        action: r.action,
        lets: r.lets,
        requires: reqs,
        span: r.span,
    }
}

/// Settles one rule's conjuncts, saying whether it survives.
fn settle_rule(rule: IrRule) -> (r: (bool, IrRule))
    ensures
        r.0 == survives(rule),
        r.1 == with_requires(rule, r.1.requires),
        r.1.requires@ == settled(rule.requires@),
{
    let IrRule { name, priority, category, exclusive, because, action, lets, requires: conjuncts, span } = rule;
    let ghost orig = conjuncts@;
    let mut pending = conjuncts;
    assert(orig.len() == pending.len());
    let mut kept: Vec<IrExpr> = Vec::new();
    let mut alive = true;
    let mut i: usize = 0;
    while pending.len() > 0
        invariant
            i <= orig.len(),
            orig.len() <= usize::MAX,
            pending@ == orig.skip(i as int),
            kept@ == settled(orig.take(i as int)),
            alive == forall|j: int| 0 <= j < i ==> !is_const(#[trigger] absorb_spec(orig[j]), false),
        decreases pending@.len(),
    {
        let c = pending.remove(0);
        assert(c == orig[i as int]);
        assert(orig.take(i as int + 1).drop_last() =~= orig.take(i as int));
        let settled_c = absorb(c);
        match const_of(&settled_c) {
            Some(true) => {},
            Some(false) => {
                alive = false;
                kept.push(settled_c);
            },
            None => {
                kept.push(settled_c);
            },
        }
        proof {
            assert(orig.skip(i as int).remove(0) =~= orig.skip(i as int + 1));
            assert(alive == forall|j: int| 0 <= j < i + 1 ==> !is_const(#[trigger] absorb_spec(orig[j]), false))
                by {
                if !alive {
                    if is_const(absorb_spec(orig[i as int]), false) {
                        assert(!is_const(absorb_spec(orig[i as int]), false) == false);
                    }
                }
            }
        }
        i += 1;
    }
    assert(orig.take(i as int) =~= orig);
    (alive, IrRule { name, priority, category, exclusive, because, action, lets, requires: kept, span })
}

/// Applies what a doctrine settled, dropping what it rules out.
///
/// In place: this only ever removes, and rebuilding the tree would need a
/// copy of every node for no gain.
pub fn specialise(ir: &mut Ir)
    ensures
        final(ir).params == old(ir).params,
        final(ir).rules@.len() == survivors(old(ir).rules@).len(),
        forall|k: int|
            0 <= k < final(ir).rules@.len() ==> #[trigger] final(ir).rules@[k] == with_requires(
                survivors(old(ir).rules@)[k],
                final(ir).rules@[k].requires,
            ),
        forall|k: int|
            0 <= k < final(ir).rules@.len() ==> (#[trigger] final(ir).rules@[k]).requires@ == settled(
                survivors(old(ir).rules@)[k].requires@,
            ),
{
    let mut pending: Vec<IrRule> = Vec::new();
    std::mem::swap(&mut pending, &mut ir.rules);
    let ghost orig = pending@;
    assert(orig.len() == pending.len());
    let mut kept: Vec<IrRule> = Vec::new();
    let mut i: usize = 0;
    while pending.len() > 0
        invariant
            i <= orig.len(),
            orig.len() <= usize::MAX,
            pending@ == orig.skip(i as int),
            kept@.len() == survivors(orig.take(i as int)).len(),
            forall|k: int|
                0 <= k < kept@.len() ==> #[trigger] kept@[k] == with_requires(
                    survivors(orig.take(i as int))[k],
                    kept@[k].requires,
                ),
            forall|k: int|
                0 <= k < kept@.len() ==> (#[trigger] kept@[k]).requires@ == settled(
                    survivors(orig.take(i as int))[k].requires@,
                ),
        decreases pending@.len(),
    {
        let rule = pending.remove(0);
        assert(rule == orig[i as int]);
        assert(orig.take(i as int + 1).drop_last() =~= orig.take(i as int));
        assert(orig.skip(i as int).remove(0) =~= orig.skip(i as int + 1));
        let (alive, settled_rule) = settle_rule(rule);
        if alive {
            kept.push(settled_rule);
        }
        i += 1;
    }
    assert(orig.take(i as int) =~= orig);
    ir.rules = kept;
}

/// Every surviving rule is one of the rules given, in the same order: the
/// pass only ever removes.
pub proof fn specialise_only_removes(rules: Seq<IrRule>)
    ensures
        survivors(rules).len() <= rules.len(),
        forall|k: int| 0 <= k < survivors(rules).len() ==> rules.contains(#[trigger] survivors(rules)[k]),
    decreases rules.len(),
{
    if rules.len() > 0 {
        specialise_only_removes(rules.drop_last());
        let rest = survivors(rules.drop_last());
        assert forall|k: int| 0 <= k < survivors(rules).len() implies rules.contains(#[trigger] survivors(rules)[k]) by {
            if k < rest.len() {
                assert(survivors(rules)[k] == rest[k]);
                assert(rules.drop_last().contains(rest[k]));
                let w = choose|w: int| 0 <= w < rules.drop_last().len() && rules.drop_last()[w] == rest[k];
                assert(rules[w] == rest[k]);
            } else {
                assert(survivors(rules)[k] == rules.last());
                assert(rules[rules.len() - 1] == rules.last());
            }
        }
    }
}

/// An expression with no constant anywhere in it.
pub open spec fn constant_free(e: IrExpr) -> bool
    decreases e,
{
    match e.kind {
        IrExprKind::Bool(_) => false,
        IrExprKind::Binary(_, l, r) => constant_free(*l) && constant_free(*r),
        _ => true,
    }
}

proof fn lemma_absorb_constant_free(e: IrExpr)
    requires
        constant_free(e),
    ensures
        absorb_spec(e) == e,
        !is_const(e, true),
        !is_const(e, false),
    decreases e,
{
    if let IrExprKind::Binary(op, l, r) = e.kind {
        lemma_absorb_constant_free(*l);
        lemma_absorb_constant_free(*r);
    }
}

proof fn lemma_settled_constant_free(reqs: Seq<IrExpr>)
    requires
        forall|i: int| 0 <= i < reqs.len() ==> constant_free(#[trigger] reqs[i]),
    ensures
        settled(reqs) == reqs,
    decreases reqs.len(),
{
    if reqs.len() > 0 {
        lemma_settled_constant_free(reqs.drop_last());
        lemma_absorb_constant_free(reqs.last());
        assert(reqs.drop_last().push(reqs.last()) =~= reqs);
    }
}

/// Where the doctrine settled nothing — no conjunct holds a constant — the
/// rule set comes out exactly as it went in.
pub proof fn specialise_keeps_what_nothing_settled(rules: Seq<IrRule>)
    requires
        forall|k: int, i: int|
            0 <= k < rules.len() && 0 <= i < rules[k].requires@.len() ==> constant_free(
                #[trigger] rules[k].requires@[i],
            ),
    ensures
        survivors(rules) == rules,
        forall|k: int| 0 <= k < rules.len() ==> settled(#[trigger] rules[k].requires@) == rules[k].requires@,
    decreases rules.len(),
{
    if rules.len() > 0 {
        specialise_keeps_what_nothing_settled(rules.drop_last());
        let last = rules.last();
        assert(rules[rules.len() - 1] == last);
        assert forall|i: int| 0 <= i < last.requires@.len() implies !is_const(
            #[trigger] absorb_spec(last.requires@[i]),
            false,
        ) by {
            lemma_absorb_constant_free(last.requires@[i]);
        }
        assert(rules.drop_last().push(last) =~= rules);
        assert forall|k: int| 0 <= k < rules.len() implies settled(#[trigger] rules[k].requires@)
            == rules[k].requires@ by {
            lemma_settled_constant_free(rules[k].requires@);
        }
    }
}

} // verus!
