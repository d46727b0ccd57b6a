//! The lowered form: a checked rule set with every name resolved.
//!
//! There is no `Ident` and no `Error` here, deliberately. A backend cannot
//! forget to handle an unresolved name because there are none, and cannot be
//! handed a tree that failed to check.
use crate::ast::{BinOp, ParamKind, UnOp};
use crate::diag::Span;
use crate::env::{Builtin, Predicate};
use crate::types::Domain;
use vstd::prelude::*;

verus! {

/// A whole rule set.
#[derive(Debug)]
pub struct Ir {
    pub rules: Vec<IrRule>,
    /// The doctrine parameters, in slot order.
    pub params: Vec<IrParam>,
}

#[derive(Debug)]
pub struct IrParam {
    pub name: String,
    pub kind: ParamKind,
    pub span: Span,
}

#[derive(Debug)]
pub struct IrRule {
    /// Output only — emitted, never compared, so no reason to intern.
    pub name: String,
    /// Resolved against a doctrine when one lands; reads no state.
    pub priority: IrExpr,
    pub category: CategoryId,
    pub exclusive: bool,
    pub because: Option<String>,
    pub action: IrAction,
    /// Bindings by slot, in declaration order. `IrExprKind::Binding` indexes
    /// this.
    pub lets: Vec<IrExpr>,
    /// Implicitly ANDed.
    pub requires: Vec<IrExpr>,
    pub span: Span,
}

/// An index into the category table.
#[derive(Debug, Clone, Copy, PartialEq, Eq, Hash, Structural)]
pub struct CategoryId(pub u32);

#[derive(Debug)]
pub struct IrAction {
    /// An index into the action table.
    pub id: ActionId,
    /// Empty unless the action is built by a factory.
    pub args: Vec<IrExpr>,
    pub span: Span,
}

#[derive(Debug, Clone, Copy, PartialEq, Eq, Structural)]
pub struct ActionId(pub u32);

#[derive(Debug)]
pub struct IrExpr {
    pub kind: IrExprKind,
    /// Kept because blocked-on analysis points at source. Backends ignore it.
    pub span: Span,
}

#[derive(Debug)]
pub enum IrExprKind {
    Int(i64),
    /// A float literal, as written.
    Float(String),
    /// A constant the fold-time pass produced; the language has no literal.
    Bool(bool),
    /// A resolved predicate and its lowered arguments. `count` never survives
    /// lowering — it becomes whichever of the three it meant.
    Predicate(Predicate, Vec<IrExpr>),
    /// An enum literal, as an index into its domain's table.
    Member(Domain, u32),
    /// A `let` binding, by slot into `IrRule::lets`.
    Binding(u32),
    /// A doctrine parameter, by slot into `Ir::params`.
    Param(u32),
    /// A pure builtin and its lowered arguments.
    Builtin(Builtin, Vec<IrExpr>),
    Unary(UnOp, Box<IrExpr>),
    Binary(BinOp, Box<IrExpr>, Box<IrExpr>),
}

/// Two expressions of the same shape, with the same literals and spans.
pub open spec fn same_ir(a: IrExpr, b: IrExpr) -> bool
    decreases a, 0int,
{
    &&& a.span == b.span
    &&& match (a.kind, b.kind) {
        (IrExprKind::Int(x), IrExprKind::Int(y)) => x == y,
        (IrExprKind::Float(x), IrExprKind::Float(y)) => x@ == y@,
        (IrExprKind::Bool(x), IrExprKind::Bool(y)) => x == y,
        (IrExprKind::Predicate(p, xs), IrExprKind::Predicate(q, ys)) => p == q && same_irs(
            xs@,
            ys@,
        ),
        (IrExprKind::Member(d, i), IrExprKind::Member(e, j)) => d == e && i == j,
        (IrExprKind::Binding(s), IrExprKind::Binding(t)) => s == t,
        (IrExprKind::Param(s), IrExprKind::Param(t)) => s == t,
        (IrExprKind::Builtin(p, xs), IrExprKind::Builtin(q, ys)) => p == q && same_irs(xs@, ys@),
        (IrExprKind::Unary(o, x), IrExprKind::Unary(p, y)) => o == p && same_ir(*x, *y),
        (IrExprKind::Binary(o, l, r), IrExprKind::Binary(p, m, s)) => o == p && same_ir(*l, *m)
            && same_ir(*r, *s),
        _ => false,
    }
}

/// Two sequences of expressions, pairwise `same_ir`.
pub open spec fn same_irs(xs: Seq<IrExpr>, ys: Seq<IrExpr>) -> bool
    decreases xs, 1int,
{
    &&& xs.len() == ys.len()
    &&& xs.len() > 0 ==> {
        &&& same_irs(xs.subrange(0, xs.len() - 1), ys.subrange(0, ys.len() - 1))
        &&& same_ir(xs[xs.len() - 1], ys[ys.len() - 1])
    }
}

impl IrExpr {
    /// A structural copy.
    pub fn duplicate(&self) -> (r: IrExpr)
        ensures
            same_ir(r, *self),
        decreases self,
    {
        let kind = match &self.kind {
            IrExprKind::Int(n) => IrExprKind::Int(*n),
            IrExprKind::Float(f) => IrExprKind::Float(f.clone()),
            IrExprKind::Bool(b) => IrExprKind::Bool(*b),
            IrExprKind::Predicate(p, args) => IrExprKind::Predicate(*p, duplicate_all(args)),
            IrExprKind::Member(d, i) => IrExprKind::Member(*d, *i),
            IrExprKind::Binding(s) => IrExprKind::Binding(*s),
            IrExprKind::Param(s) => IrExprKind::Param(*s),
            IrExprKind::Builtin(b, args) => IrExprKind::Builtin(*b, duplicate_all(args)),
            IrExprKind::Unary(op, x) => IrExprKind::Unary(*op, Box::new((**x).duplicate())),
            IrExprKind::Binary(op, l, r) => IrExprKind::Binary(
                *op,
                Box::new((**l).duplicate()),
                Box::new((**r).duplicate()),
            ),
        };
        IrExpr { kind, span: self.span }
    }
}

/// Copies of every expression, in order.
pub fn duplicate_all(v: &Vec<IrExpr>) -> (r: Vec<IrExpr>)
    ensures
        same_irs(r@, v@),
    decreases v,
{
    let mut r: Vec<IrExpr> = Vec::new();
    let mut i: usize = 0;
    while i < v.len()
        invariant
            i <= v@.len(),
            same_irs(r@, v@.subrange(0, i as int)),
        decreases v@.len() - i,
    {
        let ghost before = r@;
        r.push(v[i].duplicate());
        proof {
            assert(r@.subrange(0, r@.len() - 1) =~= before);
            assert(v@.subrange(0, i + 1).subrange(0, i as int) =~= v@.subrange(0, i as int));
        }
        i += 1;
    }
    proof {
        assert(v@.subrange(0, v@.len() as int) =~= v@);
    }
    r
}

} // verus!
