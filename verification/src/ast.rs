//! The tree.
//!
//! Every node carries a `Span`. `and` and `or` are ordinary binary nodes;
//! conjunction at the top level is structural, one `require` per conjunct.
use crate::diag::Span;
use vstd::prelude::*;

verus! {

#[derive(Debug)]
pub struct Ast {
    /// Doctrine inputs, file-scoped and constant within a doctrine window.
    pub params: Vec<Param>,
    /// Named expressions, inlined at their call sites.
    pub defs: Vec<Def>,
    pub rules: Vec<Rule>,
}

/// A `def`: one expression, given a name and some arguments.
#[derive(Debug)]
pub struct Def {
    pub name: Name,
    pub params: Vec<DefParam>,
    pub body: Expr,
    pub span: Span,
}

#[derive(Debug)]
pub struct DefParam {
    pub name: Name,
    pub kind: ParamKind,
    pub span: Span,
}

/// A `param` declaration.
#[derive(Debug)]
pub struct Param {
    pub name: Name,
    pub kind: ParamKind,
    pub span: Span,
}

/// What a parameter holds. Numbers only.
#[derive(Debug, Clone, Copy, PartialEq, Eq, Structural)]
pub enum ParamKind {
    Int,
    Float,
}

#[derive(Debug)]
pub struct Name {
    pub text: String,
    pub span: Span,
}

impl Name {
    pub fn duplicate(&self) -> (n: Name)
        ensures
            n.text@ == self.text@,
            n.span == self.span,
    {
        Name { text: self.text.clone(), span: self.span }
    }
}

#[derive(Debug)]
pub struct Rule {
    pub name: Name,
    /// An expression so a doctrine can set it, restricted by the checker to
    /// parameters, literals and builtins.
    pub priority: Expr,
    pub category: Name,
    /// A modifier on `category`; absent means false.
    pub exclusive: bool,
    /// The action to run. Exactly one per rule.
    pub action: Action,
    /// Why the rule exists. The language has no comments; unlike one, this
    /// survives into an archived rule set.
    pub because: Option<String>,
    /// Rule-scoped bindings.
    pub lets: Vec<Let>,
    /// Implicitly ANDed.
    pub requires: Vec<Expr>,
    pub span: Span,
}

/// What `do` names, with arguments when the action is built by a factory.
#[derive(Debug)]
pub struct Action {
    pub name: Name,
    pub args: Vec<Expr>,
    pub span: Span,
}

#[derive(Debug)]
pub struct Let {
    pub name: Name,
    pub value: Expr,
    pub span: Span,
}

#[derive(Debug)]
pub struct Expr {
    pub kind: ExprKind,
    pub span: Span,
}

#[derive(Debug)]
pub enum ExprKind {
    Int(i64),
    /// A float literal, as written.
    Float(String),
    /// A zero-argument predicate, a binding, a parameter or an enum literal.
    /// Which one is the checker's problem, not the parser's.
    Ident(Name),
    /// `queue-busy(Building)`, `can-build(Building, powr)`.
    Call(Name, Vec<Expr>),
    Unary(UnOp, Box<Expr>),
    Binary(BinOp, Box<Expr>, Box<Expr>),
    Error,
}

#[derive(Debug, Clone, Copy, PartialEq, Eq, Structural)]
pub enum UnOp {
    /// `not`
    Not,
    /// Unary `-`
    Neg,
    /// `exists nearest-enemy` — true when an optional value is present.
    Exists,
}

#[derive(Debug, Clone, Copy, PartialEq, Eq, Structural)]
pub enum BinOp {
    And,
    Or,
    Eq,
    NotEq,
    Lt,
    LtEq,
    Gt,
    GtEq,
    Add,
    Sub,
    Mul,
    Div,
}


/// What an expression is, with names as characters and spans kept: two trees
/// with the same `tree` are the same expression, written in the same place.
pub enum ExprShape {
    Int(int),
    Float(Seq<char>),
    Ident(Seq<char>, Span),
    Call(Seq<char>, Span, Seq<ExprTree>),
    Unary(UnOp, Box<ExprTree>),
    Binary(BinOp, Box<ExprTree>, Box<ExprTree>),
    Error,
}

pub struct ExprTree {
    pub shape: ExprShape,
    pub span: Span,
}

pub open spec fn tree(e: Expr) -> ExprTree
    decreases e, 0int,
{
    ExprTree {
        shape: match e.kind {
            ExprKind::Int(n) => ExprShape::Int(n as int),
            ExprKind::Float(f) => ExprShape::Float(f@),
            ExprKind::Ident(n) => ExprShape::Ident(n.text@, n.span),
            ExprKind::Call(n, args) => ExprShape::Call(n.text@, n.span, trees(args@)),
            ExprKind::Unary(op, x) => ExprShape::Unary(op, Box::new(tree(*x))),
            ExprKind::Binary(op, l, r) => ExprShape::Binary(op, Box::new(tree(*l)), Box::new(tree(*r))),
            ExprKind::Error => ExprShape::Error,
        },
        span: e.span,
    }
}

pub open spec fn trees(es: Seq<Expr>) -> Seq<ExprTree>
    decreases es, 1int,
{
    if es.len() == 0 {
        Seq::empty()
    } else {
        trees(es.drop_last()).push(tree(es.last()))
    }
}

/// The trees of some expressions, one for one.
pub proof fn lemma_trees(es: Seq<Expr>)
    ensures
        trees(es).len() == es.len(),
        forall|k: int| 0 <= k < es.len() ==> #[trigger] trees(es)[k] == tree(es[k]),
    decreases es.len(),
{
    if es.len() > 0 {
        lemma_trees(es.drop_last());
        assert forall|k: int| 0 <= k < es.len() implies #[trigger] trees(es)[k] == tree(es[k]) by {
            if k < es.len() - 1 {
                assert(es.drop_last()[k] == es[k]);
            }
        }
    }
}

/// An expression's shape: what it is, apart from where its root points.
pub open spec fn shape(e: Expr) -> ExprShape {
    tree(e).shape
}


/// A name as written: its text and where it stands.
pub open spec fn name_tree(n: Name) -> (Seq<char>, Span) {
    (n.text@, n.span)
}

/// A parameter of a file or of a `def`, as written.
pub struct ParamTree {
    pub name: (Seq<char>, Span),
    pub kind: ParamKind,
    pub span: Span,
}

pub open spec fn param_tree(p: Param) -> ParamTree {
    ParamTree { name: name_tree(p.name), kind: p.kind, span: p.span }
}

pub open spec fn def_param_tree(p: DefParam) -> ParamTree {
    ParamTree { name: name_tree(p.name), kind: p.kind, span: p.span }
}

pub struct DefTree {
    pub name: (Seq<char>, Span),
    pub params: Seq<ParamTree>,
    pub body: ExprTree,
    pub span: Span,
}

pub open spec fn def_tree(d: Def) -> DefTree {
    DefTree {
        name: name_tree(d.name),
        params: d.params@.map_values(|p: DefParam| def_param_tree(p)),
        body: tree(d.body),
        span: d.span,
    }
}

pub struct ActionTree {
    pub name: (Seq<char>, Span),
    pub args: Seq<ExprTree>,
    pub span: Span,
}

pub open spec fn action_tree(a: Action) -> ActionTree {
    ActionTree { name: name_tree(a.name), args: trees(a.args@), span: a.span }
}

pub struct LetTree {
    pub name: (Seq<char>, Span),
    pub value: ExprTree,
    pub span: Span,
}

pub open spec fn let_tree(l: Let) -> LetTree {
    LetTree { name: name_tree(l.name), value: tree(l.value), span: l.span }
}

pub struct RuleTree {
    pub name: (Seq<char>, Span),
    pub priority: ExprTree,
    pub category: (Seq<char>, Span),
    pub exclusive: bool,
    pub action: ActionTree,
    pub because: Option<Seq<char>>,
    pub lets: Seq<LetTree>,
    pub requires: Seq<ExprTree>,
    pub span: Span,
}

pub open spec fn rule_tree(r: Rule) -> RuleTree {
    RuleTree {
        name: name_tree(r.name),
        priority: tree(r.priority),
        category: name_tree(r.category),
        exclusive: r.exclusive,
        action: action_tree(r.action),
        because: match r.because {
            Some(text) => Some(text@),
            None => None,
        },
        lets: r.lets@.map_values(|l: Let| let_tree(l)),
        requires: trees(r.requires@),
        span: r.span,
    }
}

/// A whole tree as written: what every declaration and rule holds, names as
/// characters, every node with its span.
pub struct AstTree {
    pub params: Seq<ParamTree>,
    pub defs: Seq<DefTree>,
    pub rules: Seq<RuleTree>,
}

pub open spec fn ast_tree(a: Ast) -> AstTree {
    AstTree {
        params: a.params@.map_values(|p: Param| param_tree(p)),
        defs: a.defs@.map_values(|d: Def| def_tree(d)),
        rules: a.rules@.map_values(|r: Rule| rule_tree(r)),
    }
}

} // verus!
