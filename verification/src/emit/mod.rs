//! Turning a lowered rule set into something that can run.
//!
//! An enum rather than a backend trait: the set of targets is closed, so this
//! gets exhaustiveness for free.
//!
//! Both emitters print a rule set once its doctrine is folded in: every
//! parameter and builtin call already replaced by the number it stands for,
//! and every action argument a literal. `is_emittable` says whether a rule
//! set is in that form.
pub mod expr;
pub mod vy;

use crate::ir::{Ir, IrExpr, IrExprKind, IrRule};
use vstd::prelude::*;

verus! {

#[derive(Debug, Clone, Copy, PartialEq, Eq, Structural)]
pub enum Target {
    /// expr source, which Vimy's engine runs unchanged.
    Expr,
}

#[derive(Debug)]
pub enum Artifact {
    Expr(Vec<RuleSource>),
}

/// One rule of the build artifact. These field names are the contract the
/// loader reads.
#[derive(Debug)]
pub struct RuleSource {
    pub name: String,
    pub priority: i64,
    pub category: String,
    pub exclusive: bool,
    /// Why the rule exists. Absent unless the source said.
    pub because: Option<String>,
    /// The action id, with arguments when it is built by a factory.
    pub action: String,
    pub condition: String,
}

/// An expression with no doctrine parameter and no builtin call left in it.
pub open spec fn doctrine_free(e: IrExpr) -> bool
    decreases e,
{
    match e.kind {
        IrExprKind::Param(_) => false,
        IrExprKind::Builtin(_, _) => false,
        IrExprKind::Predicate(_, args) => all_doctrine_free(args@),
        IrExprKind::Unary(_, x) => doctrine_free(*x),
        IrExprKind::Binary(_, l, r) => doctrine_free(*l) && doctrine_free(*r),
        _ => true,
    }
}

pub open spec fn all_doctrine_free(args: Seq<IrExpr>) -> bool
    decreases args,
{
    if args.len() == 0 {
        true
    } else {
        all_doctrine_free(args.subrange(0, args.len() - 1)) && doctrine_free(args[args.len() - 1])
    }
}

/// A number, a constant or an enum literal.
pub open spec fn is_literal(e: IrExpr) -> bool {
    ||| e.kind is Int
    ||| e.kind is Float
    ||| e.kind is Bool
    ||| e.kind is Member
}

/// A rule whose doctrine has been folded in: its priority is a number, its
/// conditions read no parameter, and its action's arguments are literals.
pub open spec fn emittable(r: IrRule) -> bool {
    &&& r.priority.kind is Int
    &&& forall|i: int| 0 <= i < r.requires@.len() ==> #[trigger] doctrine_free(r.requires@[i])
    &&& forall|i: int| 0 <= i < r.lets@.len() ==> #[trigger] doctrine_free(r.lets@[i])
    &&& forall|i: int| 0 <= i < r.action.args@.len() ==> #[trigger] is_literal(r.action.args@[i])
}

pub open spec fn emittable_ir(ir: Ir) -> bool {
    forall|k: int| 0 <= k < ir.rules@.len() ==> #[trigger] emittable(ir.rules@[k])
}

proof fn lemma_all_doctrine_free(args: Seq<IrExpr>)
    ensures
        all_doctrine_free(args) <==> forall|j: int| 0 <= j < args.len() ==> #[trigger] doctrine_free(args[j]),
    decreases args.len(),
{
    if args.len() > 0 {
        let n = args.len() - 1;
        let front = args.subrange(0, n);
        lemma_all_doctrine_free(front);
        if all_doctrine_free(args) {
            assert forall|j: int| 0 <= j < args.len() implies #[trigger] doctrine_free(args[j]) by {
                if j < n {
                    assert(front[j] == args[j]);
                    assert(doctrine_free(front[j]));
                }
            }
        }
        if forall|j: int| 0 <= j < args.len() ==> #[trigger] doctrine_free(args[j]) {
            assert forall|j: int| 0 <= j < front.len() implies #[trigger] doctrine_free(front[j]) by {
                assert(front[j] == args[j]);
                assert(doctrine_free(args[j]));
            }
            assert(doctrine_free(args[n]));
        }
    }
}

#[verifier::loop_isolation(false)]
fn check_doctrine_free(e: &IrExpr) -> (r: bool)
    ensures
        r == doctrine_free(*e),
    decreases e,
{
    match &e.kind {
        IrExprKind::Param(_) | IrExprKind::Builtin(..) => false,
        IrExprKind::Predicate(_, args) => {
            proof {
                lemma_all_doctrine_free(args@);
            }
            let mut i: usize = 0;
            while i < args.len()
                invariant
                    i <= args@.len(),
                    forall|j: int| 0 <= j < i ==> #[trigger] doctrine_free(args@[j]),
                decreases args@.len() - i,
            {
                if !check_doctrine_free(&args[i]) {
                    return false;
                }
                i += 1;
            }
            true
        },
        IrExprKind::Unary(_, x) => check_doctrine_free(x),
        IrExprKind::Binary(_, l, r) => check_doctrine_free(l) && check_doctrine_free(r),
        _ => true,
    }
}

pub(crate) fn all_free(v: &Vec<IrExpr>) -> (r: bool)
    ensures
        r == forall|i: int| 0 <= i < v@.len() ==> #[trigger] doctrine_free(v@[i]),
{
    let mut i: usize = 0;
    while i < v.len()
        invariant
            i <= v@.len(),
            forall|j: int| 0 <= j < i ==> #[trigger] doctrine_free(v@[j]),
        decreases v@.len() - i,
    {
        if !check_doctrine_free(&v[i]) {
            return false;
        }
        i += 1;
    }
    true
}

fn check_emittable(r: &IrRule) -> (b: bool)
    ensures
        b == emittable(*r),
{
    if !matches!(r.priority.kind, IrExprKind::Int(_)) {
        return false;
    }
    if !all_free(&r.requires) || !all_free(&r.lets) {
        return false;
    }
    let mut i: usize = 0;
    while i < r.action.args.len()
        invariant
            i <= r.action.args@.len(),
            forall|j: int| 0 <= j < i ==> #[trigger] is_literal(r.action.args@[j]),
        decreases r.action.args@.len() - i,
    {
        match &r.action.args[i].kind {
            IrExprKind::Int(_) | IrExprKind::Float(_) | IrExprKind::Bool(_) | IrExprKind::Member(..) => {},
            _ => {
                assert(!is_literal(r.action.args@[i as int]));
                return false;
            },
        }
        i += 1;
    }
    true
}

/// Whether the doctrine has been folded into every rule, which is what both
/// emitters print.
pub fn is_emittable(ir: &Ir) -> (b: bool)
    ensures
        b == emittable_ir(*ir),
{
    let mut k: usize = 0;
    while k < ir.rules.len()
        invariant
            k <= ir.rules@.len(),
            forall|j: int| 0 <= j < k ==> #[trigger] emittable(ir.rules@[j]),
        decreases ir.rules@.len() - k,
    {
        if !check_emittable(&ir.rules[k]) {
            return false;
        }
        k += 1;
    }
    true
}

/// Emits a rule set for a target.
pub fn emit(ir: &Ir, target: Target) -> (a: Artifact)
    requires
        emittable_ir(*ir),
    ensures
        match (target, a) {
            (Target::Expr, Artifact::Expr(rules)) => expr::emitted(ir.rules@, rules@),
        },
{
    match target {
        Target::Expr => Artifact::Expr(expr::emit(ir)),
    }
}

} // verus!
