//! The expression grammar as a relation between token ranges and trees.
//!
//! `spells(t, level, i, j, e)` holds when the tokens `t[i..j]` are a way of
//! writing the tree `e` at binding level `level`. Levels run loosest first:
//! `or` (0), `and` (1), comparisons (2), `+ -` (3), `* /` (4), the prefix
//! operators (5), and primaries (6). A tree at a tighter level may stand at a
//! looser one, and any tree may stand at the tightest inside parentheses,
//! which leave no node of their own. Binary operators are left-associative:
//! the right operand sits one level tighter than the operator.
//!
//! Every node points at the tokens that write it: its span runs from the
//! start of its first token to the end of its last (`covers`), parentheses
//! around it included. `spells` holds that of every node below the root; the
//! root's span is stated by whoever holds the root, since only it knows
//! whether parentheses surround it.
//!
//! Above expressions, a file is a sequence of top-level items (`param`, `def`,
//! `rule`), and a rule's body a sequence of fields in any order. Both are
//! described by the items they hold and the token positions between them.
use crate::ast::{
    Action, ActionTree, Ast, BinOp, Def, DefParam, Expr, ExprKind, ExprTree, Let, LetTree, Name, Param,
    ParamKind, Rule, UnOp, action_tree, let_tree, name_tree, tree, DefTree, ParamTree, RuleTree,
    def_tree, param_tree, rule_tree,
};
use crate::diag::Span;
use crate::lexer::{TokenSpec, token_views};
use crate::token::{Tag, Token, TokenView, view_tag};
use vstd::prelude::*;

verus! {

/// The level at which a binary operator binds.
pub open spec fn binop_level(op: BinOp) -> int {
    match op {
        BinOp::Or => 0,
        BinOp::And => 1,
        BinOp::Eq | BinOp::NotEq | BinOp::Lt | BinOp::LtEq | BinOp::Gt | BinOp::GtEq => 2,
        BinOp::Add | BinOp::Sub => 3,
        BinOp::Mul | BinOp::Div => 4,
    }
}

/// The token that writes a binary operator.
pub open spec fn binop_tag(op: BinOp) -> Tag {
    match op {
        BinOp::Or => Tag::Or,
        BinOp::And => Tag::And,
        BinOp::Eq => Tag::EqEq,
        BinOp::NotEq => Tag::NotEq,
        BinOp::Lt => Tag::Lt,
        BinOp::LtEq => Tag::LtEq,
        BinOp::Gt => Tag::Gt,
        BinOp::GtEq => Tag::GtEq,
        BinOp::Add => Tag::Plus,
        BinOp::Sub => Tag::Minus,
        BinOp::Mul => Tag::Asterisk,
        BinOp::Div => Tag::Slash,
    }
}

/// The token that writes a prefix operator.
pub open spec fn unop_tag(op: UnOp) -> Tag {
    match op {
        UnOp::Not => Tag::Not,
        UnOp::Neg => Tag::Minus,
        UnOp::Exists => Tag::Exists,
    }
}

/// What the grammar sees of some tokens: each one's kind, with its text as
/// characters, and the byte range it covers.
pub open spec fn kinds(t: Seq<Token>) -> Seq<TokenSpec> {
    token_views(t)
}

/// The tag of token `i`.
pub open spec fn tag_at(t: Seq<TokenSpec>, i: int) -> Tag {
    view_tag(t[i].0)
}

/// Token `i` is the identifier `s`.
pub open spec fn ident_at(t: Seq<TokenSpec>, i: int, s: Seq<char>) -> bool {
    &&& 0 <= i < t.len()
    &&& tag_at(t, i) == Tag::Identifier
    &&& t[i].0 == TokenView::Identifier(s)
}

/// The span `s` runs from the start of token `i` to the end of token
/// `j - 1`: what a node written by `t[i..j]` points at.
pub open spec fn covers(t: Seq<TokenSpec>, i: int, j: int, s: Span) -> bool {
    &&& 0 <= i < j <= t.len()
    &&& s.start == t[i].1
    &&& s.end == t[j - 1].2
}

/// `t[i..j]` writes `e` at `level` (see the module documentation).
pub open spec fn spells(t: Seq<TokenSpec>, level: int, i: int, j: int, e: Expr) -> bool
    decreases e, j - i, 7 - level,
{
    if !(0 <= i < j < t.len() && 0 <= level <= 6) {
        false
    } else if level == 6 {
        ||| match e.kind {
            ExprKind::Int(n) => j == i + 1 && tag_at(t, i) == Tag::Number && t[i].0 == TokenView::Number(
                n as int,
            ),
            ExprKind::Float(f) => j == i + 1 && tag_at(t, i) == Tag::Float && t[i].0 == TokenView::Float(
                f@,
            ),
            ExprKind::Ident(name) => j == i + 1 && ident_at(t, i, name.text@) && covers(
                t,
                i,
                i + 1,
                name.span,
            ) && tag_at(t, j) != Tag::LParen,
            ExprKind::Call(name, args) => {
                &&& i + 3 <= j
                &&& ident_at(t, i, name.text@)
                &&& covers(t, i, i + 1, name.span)
                &&& tag_at(t, i + 1) == Tag::LParen
                &&& tag_at(t, j - 1) == Tag::RParen
                &&& spells_args(t, i + 2, j - 1, args@)
            },
            _ => false,
        }
        ||| {
            &&& i + 2 <= j
            &&& tag_at(t, i) == Tag::LParen
            &&& tag_at(t, j - 1) == Tag::RParen
            &&& spells(t, 0, i + 1, j - 1, e)
        }
    } else if level == 5 {
        ||| spells(t, 6, i, j, e)
        ||| match e.kind {
            ExprKind::Unary(op, x) => tag_at(t, i) == unop_tag(op) && spells(t, 5, i + 1, j, *x)
                && covers(t, i + 1, j, x.span),
            _ => false,
        }
    } else {
        ||| spells(t, level + 1, i, j, e)
        ||| match e.kind {
            ExprKind::Binary(op, l, r) => {
                &&& binop_level(op) == level
                &&& exists|k: int|
                    i < k < j && spells(t, level, i, k, *l) && covers(t, i, k, l.span)
                        && #[trigger] tag_at(t, k) == binop_tag(op) && spells(
                        t,
                        level + 1,
                        k + 1,
                        j,
                        *r,
                    ) && covers(t, k + 1, j, r.span)
            },
            _ => false,
        }
    }
}

/// `t[i..j]` writes the arguments `args`, separated by commas, with at most
/// one comma after the last.
pub open spec fn spells_args(t: Seq<TokenSpec>, i: int, j: int, args: Seq<Expr>) -> bool
    decreases args, 1int, 0int,
{
    ||| spells_list(t, i, j, args)
    ||| {
        &&& args.len() > 0
        &&& i < j - 1
        &&& tag_at(t, j - 1) == Tag::Comma
        &&& spells_list(t, i, j - 1, args)
    }
}

/// `t[i..j]` writes `args` separated by commas, with none after the last.
pub open spec fn spells_list(t: Seq<TokenSpec>, i: int, j: int, args: Seq<Expr>) -> bool
    decreases args, 0int, 0int,
{
    if args.len() == 0 {
        i == j
    } else if args.len() == 1 {
        spells(t, 0, i, j, args[0]) && covers(t, i, j, args[0].span)
    } else {
        exists|k: int|
            i < k < j && spells_list(t, i, k, args.subrange(0, args.len() - 1))
                && #[trigger] tag_at(t, k) == Tag::Comma && spells(t, 0, k + 1, j, args[args.len() - 1])
                && covers(t, k + 1, j, args[args.len() - 1].span)
    }
}

/// A tree written at a tighter level may stand at a looser one.
pub proof fn lemma_level_up(t: Seq<TokenSpec>, level: int, i: int, j: int, e: Expr)
    requires
        0 <= level < 6,
        spells(t, level + 1, i, j, e),
    ensures
        spells(t, level, i, j, e),
{
}

/// One step of a left-associative chain: what is written so far, the
/// operator, and an operand one level tighter.
pub proof fn lemma_binary_step(
    t: Seq<TokenSpec>,
    level: int,
    i: int,
    k: int,
    j: int,
    l: Expr,
    r: Expr,
    e: Expr,
)
    requires
        0 <= level <= 4,
        e.kind matches ExprKind::Binary(op, lb, rb) && binop_level(op) == level && *lb == l
            && *rb == r && tag_at(t, k) == binop_tag(op),
        spells(t, level, i, k, l),
        covers(t, i, k, l.span),
        spells(t, level + 1, k + 1, j, r),
        covers(t, k + 1, j, r.span),
    ensures
        spells(t, level, i, j, e),
{
    if let ExprKind::Binary(op, lb, rb) = e.kind {
        assert(tag_at(t, k) == binop_tag(op));
    }
}

/// The grammar reads a node's shape, never its own span.
pub proof fn lemma_spells_kind(t: Seq<TokenSpec>, level: int, i: int, j: int, a: Expr, b: Expr)
    requires
        a.kind == b.kind,
    ensures
        spells(t, level, i, j, a) == spells(t, level, i, j, b),
    decreases a, j - i, 7 - level,
{
    if 0 <= i < j < t.len() && 0 <= level <= 6 {
        if level == 6 {
            if i + 2 <= j {
                lemma_spells_kind(t, 0, i + 1, j - 1, a, b);
            }
        } else {
            lemma_spells_kind(t, level + 1, i, j, a, b);
        }
    }
}

// ---- where an expression starts and stops ----

/// The level of the binary operator a token writes, or -1 for a token that
/// writes none.
pub open spec fn tag_level(tg: Tag) -> int {
    match tg {
        Tag::Or => 0,
        Tag::And => 1,
        Tag::EqEq | Tag::NotEq | Tag::Lt | Tag::LtEq | Tag::Gt | Tag::GtEq => 2,
        Tag::Plus | Tag::Minus => 3,
        Tag::Asterisk | Tag::Slash => 4,
        _ => -1,
    }
}

/// A token that would extend an expression written at `level`: a binary
/// operator binding at that level or tighter.
pub open spec fn continues(level: int, tg: Tag) -> bool {
    level <= tag_level(tg)
}

/// A token that can begin an expression.
pub open spec fn starts_expr(tg: Tag) -> bool {
    ||| tg == Tag::Number
    ||| tg == Tag::Float
    ||| tg == Tag::Identifier
    ||| tg == Tag::LParen
    ||| tg == Tag::Not
    ||| tg == Tag::Minus
    ||| tg == Tag::Exists
}

/// `t[p..j]` carries on an expression at binary `level`: operators of that
/// level, each followed by an operand one level tighter.
pub open spec fn spells_tail(t: Seq<TokenSpec>, level: int, p: int, j: int) -> bool
    decreases j - p,
{
    if p >= j {
        p == j
    } else {
        exists|q: int, x: Expr|
            p + 1 < q <= j && #[trigger] spells(t, level + 1, p + 1, q, x) && tag_level(
                tag_at(t, p),
            ) == level && spells_tail(t, level, q, j)
    }
}

/// Every expression begins with a token that can begin one.
pub proof fn lemma_first(t: Seq<TokenSpec>, level: int, i: int, j: int, e: Expr)
    requires
        spells(t, level, i, j, e),
    ensures
        starts_expr(tag_at(t, i)),
    decreases e, j - i, 7 - level,
{
    if level == 6 {
    } else if level == 5 {
        if spells(t, 6, i, j, e) {
            lemma_first(t, 6, i, j, e);
        }
    } else if spells(t, level + 1, i, j, e) {
        lemma_first(t, level + 1, i, j, e);
    } else if let ExprKind::Binary(op, l, r) = e.kind {
        let k = choose|k: int|
            i < k < j && spells(t, level, i, k, *l) && #[trigger] tag_at(t, k) == binop_tag(op)
                && spells(t, level + 1, k + 1, j, *r);
        lemma_first(t, level, i, k, *l);
    }
}

/// Extending a tail by one more operator and operand.
pub proof fn lemma_tail_append(t: Seq<TokenSpec>, level: int, p: int, k: int, j: int, r: Expr)
    requires
        spells_tail(t, level, p, k),
        tag_level(tag_at(t, k)) == level,
        spells(t, level + 1, k + 1, j, r),
    ensures
        spells_tail(t, level, p, j),
    decreases k - p,
{
    if p < k {
        let (q, x) = choose|q: int, x: Expr|
            p + 1 < q <= k && #[trigger] spells(t, level + 1, p + 1, q, x) && tag_level(
                tag_at(t, p),
            ) == level && spells_tail(t, level, q, k);
        lemma_tail_append(t, level, q, k, j, r);
        assert(spells(t, level + 1, p + 1, q, x));
    } else {
        assert(spells_tail(t, level, j, j));
        assert(spells(t, level + 1, k + 1, j, r));
    }
}

/// An expression at a binary level is a first operand one level tighter,
/// then a tail at that level.
pub proof fn lemma_chain(t: Seq<TokenSpec>, level: int, i: int, j: int, e: Expr)
    requires
        0 <= level <= 4,
        spells(t, level, i, j, e),
    ensures
        exists|p: int, x: Expr| #[trigger]
            spells(t, level + 1, i, p, x) && spells_tail(t, level, p, j),
    decreases e,
{
    if spells(t, level + 1, i, j, e) {
        assert(spells_tail(t, level, j, j));
        assert(spells(t, level + 1, i, j, e) && spells_tail(t, level, j, j));
    } else if let ExprKind::Binary(op, l, r) = e.kind {
        let k = choose|k: int|
            i < k < j && spells(t, level, i, k, *l) && #[trigger] tag_at(t, k) == binop_tag(op)
                && spells(t, level + 1, k + 1, j, *r);
        lemma_chain(t, level, i, k, *l);
        let (p, x) = choose|p: int, x: Expr| #[trigger]
            spells(t, level + 1, i, p, x) && spells_tail(t, level, p, k);
        lemma_tail_append(t, level, p, k, j, *r);
        assert(spells(t, level + 1, i, p, x) && spells_tail(t, level, p, j));
    }
}

/// Arguments read from the front: the first, then either the end (perhaps
/// after one comma) or a comma and the rest.
pub proof fn lemma_args_front(t: Seq<TokenSpec>, i: int, j: int, args: Seq<Expr>)
    requires
        spells_args(t, i, j, args),
        args.len() > 0,
    ensures
        exists|k: int| #[trigger]
            spells(t, 0, i, k, args[0]) && covers(t, i, k, args[0].span) && {
                ||| args.len() == 1 && k == j
                ||| args.len() == 1 && k + 1 == j && tag_at(t, k) == Tag::Comma
                ||| args.len() > 1 && tag_at(t, k) == Tag::Comma && spells_args(
                    t,
                    k + 1,
                    j,
                    args.subrange(1, args.len() as int),
                )
            },
{
    if spells_list(t, i, j, args) {
        lemma_list_front(t, i, j, args);
        let k = choose|k: int| #[trigger]
            spells(t, 0, i, k, args[0]) && covers(t, i, k, args[0].span) && {
                ||| args.len() == 1 && k == j
                ||| args.len() > 1 && tag_at(t, k) == Tag::Comma && spells_list(
                    t,
                    k + 1,
                    j,
                    args.subrange(1, args.len() as int),
                )
            };
        assert(spells(t, 0, i, k, args[0]));
    } else {
        lemma_list_front(t, i, j - 1, args);
        let k = choose|k: int| #[trigger]
            spells(t, 0, i, k, args[0]) && covers(t, i, k, args[0].span) && {
                ||| args.len() == 1 && k == j - 1
                ||| args.len() > 1 && tag_at(t, k) == Tag::Comma && spells_list(
                    t,
                    k + 1,
                    j - 1,
                    args.subrange(1, args.len() as int),
                )
            };
        assert(spells(t, 0, i, k, args[0]));
        if args.len() > 1 {
            lemma_list_nonempty(t, k + 1, j - 1, args.subrange(1, args.len() as int));
        }
    }
}

/// A list of arguments with at least one spans at least one token.
proof fn lemma_list_nonempty(t: Seq<TokenSpec>, i: int, j: int, args: Seq<Expr>)
    requires
        spells_list(t, i, j, args),
        args.len() > 0,
    ensures
        i < j,
    decreases args.len(),
{
    if args.len() == 1 {
        assert(spells(t, 0, i, j, args[0]));
    } else {
        let k = choose|k: int|
            i < k < j && spells_list(t, i, k, args.subrange(0, args.len() - 1))
                && #[trigger] tag_at(t, k) == Tag::Comma && spells(
                t,
                0,
                k + 1,
                j,
                args[args.len() - 1],
            );
    }
}

/// `spells_list` read from the front.
proof fn lemma_list_front(t: Seq<TokenSpec>, i: int, j: int, args: Seq<Expr>)
    requires
        spells_list(t, i, j, args),
        args.len() > 0,
    ensures
        exists|k: int| #[trigger]
            spells(t, 0, i, k, args[0]) && covers(t, i, k, args[0].span) && {
                ||| args.len() == 1 && k == j
                ||| args.len() > 1 && tag_at(t, k) == Tag::Comma && spells_list(
                    t,
                    k + 1,
                    j,
                    args.subrange(1, args.len() as int),
                )
            },
    decreases args.len(),
{
    if args.len() == 1 {
        assert(spells(t, 0, i, j, args[0]));
    } else {
        let n = args.len();
        let front = args.subrange(0, n - 1);
        let m = choose|m: int|
            i < m < j && spells_list(t, i, m, front) && #[trigger] tag_at(t, m) == Tag::Comma
                && spells(t, 0, m + 1, j, args[n - 1]) && covers(t, m + 1, j, args[n - 1].span);
        lemma_list_front(t, i, m, front);
        let k = choose|k: int| #[trigger]
            spells(t, 0, i, k, front[0]) && covers(t, i, k, front[0].span) && {
                ||| front.len() == 1 && k == m
                ||| front.len() > 1 && tag_at(t, k) == Tag::Comma && spells_list(
                    t,
                    k + 1,
                    m,
                    front.subrange(1, front.len() as int),
                )
            };
        assert(front[0] == args[0]);
        let rest = args.subrange(1, n as int);
        if n == 2 {
            assert(rest =~= seq![args[1]]);
            assert(spells(t, 0, k + 1, j, rest[0]));
            assert(spells_list(t, k + 1, j, rest));
        } else {
            assert(rest.subrange(0, rest.len() - 1) =~= front.subrange(1, front.len() as int));
            assert(rest[rest.len() - 1] == args[n - 1]);
            assert(tag_at(t, m) == Tag::Comma);
            lemma_list_nonempty(t, k + 1, m, front.subrange(1, front.len() as int));
            assert(spells_list(t, k + 1, j, rest));
        }
        assert(spells(t, 0, i, k, args[0]));
    }
}

// ---- the left spine of a chain ----

/// `s`, written by `t[i..p]`, sits on the left spine of `x`, written by
/// `t[i..j]` at binary `level`: it is `x`, or it sits on the spine of the
/// left operand of `x`'s operator at that level.
pub open spec fn on_spine(t: Seq<TokenSpec>, level: int, i: int, j: int, x: Expr, p: int, s: Expr) -> bool
    decreases x,
{
    ||| p == j && s == x
    ||| match x.kind {
        ExprKind::Binary(op, l, r) => {
            &&& binop_level(op) == level
            &&& exists|k: int|
                i < k < j && spells(t, level, i, k, *l) && covers(t, i, k, l.span)
                    && #[trigger] tag_at(t, k) == binop_tag(op) && spells(
                    t,
                    level + 1,
                    k + 1,
                    j,
                    *r,
                ) && covers(t, k + 1, j, r.span) && on_spine(t, level, i, k, *l, p, s)
        },
        _ => false,
    }
}

/// The spine ends no later than the chain, and where it ends with the chain
/// it is the whole chain.
pub proof fn lemma_spine_bound(t: Seq<TokenSpec>, level: int, i: int, j: int, x: Expr, p: int, s: Expr)
    requires
        on_spine(t, level, i, j, x, p, s),
    ensures
        p <= j,
        p == j ==> s == x,
    decreases x,
{
    if !(p == j && s == x) {
        if let ExprKind::Binary(op, l, r) = x.kind {
            let k = choose|k: int|
                i < k < j && spells(t, level, i, k, *l) && covers(t, i, k, l.span)
                    && #[trigger] tag_at(t, k) == binop_tag(op) && spells(
                    t,
                    level + 1,
                    k + 1,
                    j,
                    *r,
                ) && covers(t, k + 1, j, r.span) && on_spine(t, level, i, k, *l, p, s);
            lemma_spine_bound(t, level, i, k, *l, p, s);
        }
    }
}

/// A binary operator writes a token of its own level.
pub proof fn lemma_binop_tag(op: BinOp)
    ensures
        tag_level(binop_tag(op)) == binop_level(op),
        forall|op2: BinOp| binop_tag(op2) == binop_tag(op) ==> op2 == op,
{
}

/// The bottom of the spine: the first operand, one level tighter, followed
/// by an operator of the chain's level or by the chain's end.
pub proof fn lemma_spine_first(t: Seq<TokenSpec>, level: int, i: int, j: int, x: Expr)
    requires
        0 <= level <= 4,
        spells(t, level, i, j, x),
    ensures
        exists|p: int, s: Expr| #[trigger]
            on_spine(t, level, i, j, x, p, s) && spells(t, level + 1, i, p, s) && (p == j
                || tag_level(tag_at(t, p)) == level),
    decreases x,
{
    if spells(t, level + 1, i, j, x) {
        assert(on_spine(t, level, i, j, x, j, x));
    } else if let ExprKind::Binary(op, l, r) = x.kind {
        let k = choose|k: int|
            i < k < j && spells(t, level, i, k, *l) && covers(t, i, k, l.span)
                && #[trigger] tag_at(t, k) == binop_tag(op) && spells(t, level + 1, k + 1, j, *r)
                && covers(t, k + 1, j, r.span);
        lemma_spine_first(t, level, i, k, *l);
        let (p, s) = choose|p: int, s: Expr| #[trigger]
            on_spine(t, level, i, k, *l, p, s) && spells(t, level + 1, i, p, s) && (p == k
                || tag_level(tag_at(t, p)) == level);
        lemma_binop_tag(op);
        lemma_spine_bound(t, level, i, k, *l, p, s);
        assert(on_spine(t, level, i, j, x, p, s));
    }
}

/// One step up the spine: below the chain's end, the node on the spine is
/// the left operand of the next node up, whose operator is the token that
/// follows it.
pub proof fn lemma_spine_up(t: Seq<TokenSpec>, level: int, i: int, j: int, x: Expr, p: int, s: Expr)
    requires
        on_spine(t, level, i, j, x, p, s),
        p < j,
    ensures
        covers(t, i, p, s.span),
        exists|q: int, up: Expr| #[trigger]
            on_spine(t, level, i, j, x, q, up) && p < q <= j && (q == j
                || tag_level(tag_at(t, q)) == level) && match up.kind {
                ExprKind::Binary(op, l, r) => {
                    &&& *l == s
                    &&& binop_level(op) == level
                    &&& tag_at(t, p) == binop_tag(op)
                    &&& spells(t, level + 1, p + 1, q, *r)
                    &&& covers(t, p + 1, q, r.span)
                },
                _ => false,
            },
    decreases x,
{
    if let ExprKind::Binary(op, l, r) = x.kind {
        let k = choose|k: int|
            i < k < j && spells(t, level, i, k, *l) && covers(t, i, k, l.span)
                && #[trigger] tag_at(t, k) == binop_tag(op) && spells(t, level + 1, k + 1, j, *r)
                && covers(t, k + 1, j, r.span) && on_spine(t, level, i, k, *l, p, s);
        lemma_spine_bound(t, level, i, k, *l, p, s);
        lemma_binop_tag(op);
        if p == k {
            assert(on_spine(t, level, i, j, x, j, x));
        } else {
            lemma_spine_up(t, level, i, k, *l, p, s);
            let (q, up) = choose|q: int, up: Expr| #[trigger]
                on_spine(t, level, i, k, *l, q, up) && p < q <= k && (q == k || tag_level(
                tag_at(t, q),
            ) == level) && match up.kind {
                    ExprKind::Binary(op2, l2, r2) => {
                        &&& *l2 == s
                        &&& binop_level(op2) == level
                        &&& tag_at(t, p) == binop_tag(op2)
                        &&& spells(t, level + 1, p + 1, q, *r2)
                        &&& covers(t, p + 1, q, r2.span)
                    },
                    _ => false,
                };
            assert(on_spine(t, level, i, j, x, q, up));
        }
    } else {
        assert(p == j && s == x);
    }
}

// ---- declarations ----

/// The token that writes a parameter's type.
pub open spec fn kind_tag(k: ParamKind) -> Tag {
    match k {
        ParamKind::Int => Tag::IntType,
        ParamKind::Float => Tag::FloatType,
    }
}

/// `t[i..j]` writes `param name: type`.
pub open spec fn spells_param(t: Seq<TokenSpec>, i: int, j: int, p: Param) -> bool {
    &&& 0 <= i
    &&& j == i + 4
    &&& j < t.len()
    &&& tag_at(t, i) == Tag::Param
    &&& ident_at(t, i + 1, p.name.text@)
    &&& tag_at(t, i + 2) == Tag::Colon
    &&& tag_at(t, i + 3) == kind_tag(p.kind)
    &&& covers(t, i, j, p.span)
    &&& covers(t, i + 1, i + 2, p.name.span)
}

/// The parameters of a `def` written from `i`: each `name: type`, separated
/// by commas, so that parameter `m` starts at `i + 4 * m`.
pub open spec fn spells_def_params(t: Seq<TokenSpec>, i: int, ps: Seq<DefParam>) -> bool {
    forall|m: int|
        0 <= m < ps.len() ==> {
            &&& ident_at(t, i + 4 * m, (#[trigger] ps[m]).name.text@)
            &&& covers(t, i + 4 * m, i + 4 * m + 1, ps[m].name.span)
            &&& covers(t, i + 4 * m, i + 4 * m + 3, ps[m].span)
            &&& tag_at(t, i + 4 * m + 1) == Tag::Colon
            &&& tag_at(t, i + 4 * m + 2) == kind_tag(ps[m].kind)
            &&& m + 1 < ps.len() ==> tag_at(t, i + 4 * m + 3) == Tag::Comma
        }
}

/// Where the parameters of a `def` written from `i` end.
pub open spec fn def_params_end(i: int, n: int) -> int {
    if n == 0 {
        i
    } else {
        i + 4 * n - 1
    }
}

/// `t[i..j]` writes `def name(params) = body`.
pub open spec fn spells_def(t: Seq<TokenSpec>, i: int, j: int, d: Def) -> bool {
    let k = def_params_end(i + 3, d.params@.len() as int);
    &&& 0 <= i
    &&& tag_at(t, i) == Tag::Def
    &&& ident_at(t, i + 1, d.name.text@)
    &&& covers(t, i + 1, i + 2, d.name.span)
    &&& tag_at(t, i + 2) == Tag::LParen
    &&& spells_def_params(t, i + 3, d.params@)
    &&& tag_at(t, k) == Tag::RParen
    &&& tag_at(t, k + 1) == Tag::Eq
    &&& spells(t, 0, k + 2, j, d.body)
    &&& covers(t, k + 2, j, d.body.span)
    &&& covers(t, i, j, d.span)
}

/// `t[i..j]` writes the action `a`: its name, with a parenthesised argument
/// list when one follows.
pub open spec fn spells_action(t: Seq<TokenSpec>, i: int, j: int, a: Action) -> bool {
    &&& ident_at(t, i, a.name.text@)
    &&& covers(t, i, i + 1, a.name.span)
    &&& covers(t, i, j, a.span)
    &&& j < t.len()
    &&& {
        ||| j == i + 1 && tag_at(t, j) != Tag::LParen && a.args@.len() == 0
        ||| {
            &&& i + 3 <= j
            &&& tag_at(t, i + 1) == Tag::LParen
            &&& tag_at(t, j - 1) == Tag::RParen
            &&& spells_args(t, i + 2, j - 1, a.args@)
        }
    }
}

// ---- rules ----

/// One field of a rule body, as written.
pub enum RuleItem {
    Priority(Expr),
    Category(Name, bool),
    Do(Action),
    Because(String),
    Let(Let),
    Require(Expr),
}

/// Which field an item is.
pub enum Field {
    Priority,
    Category,
    Do,
    Because,
    Let,
    Require,
}

pub open spec fn field_of(it: RuleItem) -> Field {
    match it {
        RuleItem::Priority(_) => Field::Priority,
        RuleItem::Category(_, _) => Field::Category,
        RuleItem::Do(_) => Field::Do,
        RuleItem::Because(_) => Field::Because,
        RuleItem::Let(_) => Field::Let,
        RuleItem::Require(_) => Field::Require,
    }
}

/// `t[i..j]` writes one rule field.
pub open spec fn spells_rule_item(t: Seq<TokenSpec>, i: int, j: int, it: RuleItem) -> bool {
    &&& 0 <= i < j < t.len()
    &&& match it {
        RuleItem::Priority(e) => tag_at(t, i) == Tag::Priority && spells(t, 0, i + 1, j, e)
            && covers(t, i + 1, j, e.span),
        RuleItem::Category(n, exclusive) => {
            &&& tag_at(t, i) == Tag::Category
            &&& ident_at(t, i + 1, n.text@)
            &&& covers(t, i + 1, i + 2, n.span)
            &&& if exclusive {
                j == i + 3 && tag_at(t, i + 2) == Tag::Exclusive
            } else {
                j == i + 2 && tag_at(t, j) != Tag::Exclusive
            }
        },
        RuleItem::Do(a) => tag_at(t, i) == Tag::Do && spells_action(t, i + 1, j, a),
        RuleItem::Because(text) => {
            &&& tag_at(t, i) == Tag::Because
            &&& j == i + 2
            &&& tag_at(t, i + 1) == Tag::Str
            &&& t[i + 1].0 == TokenView::Str(text@)
        },
        RuleItem::Let(l) => {
            &&& tag_at(t, i) == Tag::Let
            &&& ident_at(t, i + 1, l.name.text@)
            &&& covers(t, i + 1, i + 2, l.name.span)
            &&& tag_at(t, i + 2) == Tag::Eq
            &&& spells(t, 0, i + 3, j, l.value)
            &&& covers(t, i + 3, j, l.value.span)
            &&& covers(t, i, j, l.span)
        },
        RuleItem::Require(e) => tag_at(t, i) == Tag::Require && spells(t, 0, i + 1, j, e)
            && covers(t, i + 1, j, e.span),
    }
}

/// `t[i..j]` writes the rule fields `items` in order, item `m` between
/// `cuts[m]` and `cuts[m + 1]`.
pub open spec fn spells_rule_items(
    t: Seq<TokenSpec>,
    i: int,
    j: int,
    items: Seq<RuleItem>,
    cuts: Seq<int>,
) -> bool {
    &&& cuts.len() == items.len() + 1
    &&& cuts[0] == i
    &&& cuts.last() == j
    &&& forall|m: int|
        0 <= m < items.len() ==> #[trigger] spells_rule_item(t, cuts[m], cuts[m + 1], items[m])
}

/// The items of one field, in the order written.
pub open spec fn picked(items: Seq<RuleItem>, f: Field) -> Seq<RuleItem>
    decreases items.len(),
{
    if items.len() == 0 {
        Seq::empty()
    } else {
        let rest = picked(items.drop_last(), f);
        if field_of(items.last()) == f {
            rest.push(items.last())
        } else {
            rest
        }
    }
}

/// The rule that a body's fields make: `priority`, `category` and `do`
/// exactly once, `because` at most once, every `let` and `require` in order.
pub open spec fn rule_built(items: Seq<RuleItem>, r: Rule) -> bool {
    &&& picked(items, Field::Priority) == seq![RuleItem::Priority(r.priority)]
    &&& picked(items, Field::Category) == seq![RuleItem::Category(r.category, r.exclusive)]
    &&& picked(items, Field::Do) == seq![RuleItem::Do(r.action)]
    &&& picked(items, Field::Because) == match r.because {
        Some(text) => seq![RuleItem::Because(text)],
        None => Seq::empty(),
    }
    &&& picked(items, Field::Let).len() == r.lets@.len()
    &&& forall|m: int|
        0 <= m < r.lets@.len() ==> #[trigger] picked(items, Field::Let)[m] == RuleItem::Let(
            r.lets@[m],
        )
    &&& picked(items, Field::Require).len() == r.requires@.len()
    &&& forall|m: int|
        0 <= m < r.requires@.len() ==> #[trigger] picked(items, Field::Require)[m]
            == RuleItem::Require(r.requires@[m])
}

/// `t[i..j]` writes the rule `r`: `rule name { fields }`.
pub open spec fn spells_rule(t: Seq<TokenSpec>, i: int, j: int, r: Rule) -> bool {
    &&& 0 <= i
    &&& i + 4 <= j
    &&& tag_at(t, i) == Tag::Rule
    &&& ident_at(t, i + 1, r.name.text@)
    &&& covers(t, i + 1, i + 2, r.name.span)
    &&& covers(t, i, j, r.span)
    &&& tag_at(t, i + 2) == Tag::LBrace
    &&& tag_at(t, j - 1) == Tag::RBrace
    &&& exists|items: Seq<RuleItem>, cuts: Seq<int>|
        #[trigger] spells_rule_items(t, i + 3, j - 1, items, cuts) && rule_built(items, r)
}

/// The keyword that begins a field.
pub open spec fn field_tag(f: Field) -> Tag {
    match f {
        Field::Priority => Tag::Priority,
        Field::Category => Tag::Category,
        Field::Do => Tag::Do,
        Field::Because => Tag::Because,
        Field::Let => Tag::Let,
        Field::Require => Tag::Require,
    }
}

/// The fields a rule needs: `priority`, `category` and `do` once each,
/// `because` at most once.
pub open spec fn rule_shape(items: Seq<RuleItem>) -> bool {
    &&& picked(items, Field::Priority).len() == 1
    &&& picked(items, Field::Category).len() == 1
    &&& picked(items, Field::Do).len() == 1
    &&& picked(items, Field::Because).len() <= 1
}

/// `t[i..j]` writes a well-shaped rule body, closed by the `}` at `j`.
pub open spec fn rule_target(
    t: Seq<TokenSpec>,
    i: int,
    j: int,
    items: Seq<RuleItem>,
    cuts: Seq<int>,
) -> bool {
    &&& spells_rule_items(t, i, j, items, cuts)
    &&& rule_shape(items)
    &&& tag_at(t, j) == Tag::RBrace
}

/// One rule field as written (see `ast::tree`).
pub enum ItemTree {
    Priority(ExprTree),
    Category((Seq<char>, Span), bool),
    Do(ActionTree),
    Because(Seq<char>),
    Let(LetTree),
    Require(ExprTree),
}

pub open spec fn item_tree(it: RuleItem) -> ItemTree {
    match it {
        RuleItem::Priority(e) => ItemTree::Priority(tree(e)),
        RuleItem::Category(n, exclusive) => ItemTree::Category(name_tree(n), exclusive),
        RuleItem::Do(a) => ItemTree::Do(action_tree(a)),
        RuleItem::Because(text) => ItemTree::Because(text@),
        RuleItem::Let(l) => ItemTree::Let(let_tree(l)),
        RuleItem::Require(e) => ItemTree::Require(tree(e)),
    }
}

/// Fields written alike, one for one, keep alike when those of one kind are
/// picked.
pub proof fn lemma_picked_trees(a: Seq<RuleItem>, b: Seq<RuleItem>, f: Field)
    requires
        a.len() == b.len(),
        forall|m: int| 0 <= m < a.len() ==> item_tree(#[trigger] a[m]) == item_tree(b[m]),
    ensures
        picked(a, f).len() == picked(b, f).len(),
        forall|m: int|
            0 <= m < picked(a, f).len() ==> item_tree(#[trigger] picked(a, f)[m]) == item_tree(
                picked(b, f)[m],
            ),
    decreases a.len(),
{
    if a.len() > 0 {
        let n = a.len() - 1;
        assert forall|m: int| 0 <= m < a.drop_last().len() implies item_tree(
            #[trigger] a.drop_last()[m],
        ) == item_tree(b.drop_last()[m]) by {
            assert(a.drop_last()[m] == a[m]);
            assert(b.drop_last()[m] == b[m]);
        }
        lemma_picked_trees(a.drop_last(), b.drop_last(), f);
        assert(item_tree(a[n]) == item_tree(b[n]));
        assert(field_of(a[n]) == field_of(b[n]));
        let pa = picked(a.drop_last(), f);
        let pb = picked(b.drop_last(), f);
        if field_of(a.last()) == f {
            assert forall|m: int| 0 <= m < picked(a, f).len() implies item_tree(
                #[trigger] picked(a, f)[m],
            ) == item_tree(picked(b, f)[m]) by {
                if m < pa.len() {
                    assert(picked(a, f)[m] == pa[m]);
                    assert(picked(b, f)[m] == pb[m]);
                }
            }
        }
    }
}

/// Two sequences of fields of the same kinds, one for one, have as many of
/// each kind.
pub proof fn lemma_picked_same(a: Seq<RuleItem>, b: Seq<RuleItem>, f: Field)
    requires
        a.len() == b.len(),
        forall|m: int| 0 <= m < a.len() ==> field_of(#[trigger] a[m]) == field_of(b[m]),
    ensures
        picked(a, f).len() == picked(b, f).len(),
    decreases a.len(),
{
    if a.len() > 0 {
        let n = a.len() - 1;
        assert forall|m: int| 0 <= m < a.drop_last().len() implies field_of(
            #[trigger] a.drop_last()[m],
        ) == field_of(b.drop_last()[m]) by {
            assert(a.drop_last()[m] == a[m]);
            assert(b.drop_last()[m] == b[m]);
        }
        lemma_picked_same(a.drop_last(), b.drop_last(), f);
        assert(field_of(a[n]) == field_of(b[n]));
    }
}

// ---- files ----

/// One top-level item, as written.
pub enum TopItem {
    Param(Param),
    Def(Def),
    Rule(Rule),
}

/// One top-level item as written (see `ast::tree`).
pub enum TopTree {
    Param(ParamTree),
    Def(DefTree),
    Rule(RuleTree),
}

pub open spec fn top_tree(it: TopItem) -> TopTree {
    match it {
        TopItem::Param(p) => TopTree::Param(param_tree(p)),
        TopItem::Def(d) => TopTree::Def(def_tree(d)),
        TopItem::Rule(r) => TopTree::Rule(rule_tree(r)),
    }
}

/// Top-level items written alike, one for one, declare alike.
pub proof fn lemma_tops_trees(a: Seq<TopItem>, b: Seq<TopItem>)
    requires
        a.len() == b.len(),
        forall|m: int| 0 <= m < a.len() ==> top_tree(#[trigger] a[m]) == top_tree(b[m]),
    ensures
        params_in(a).map_values(|p: Param| param_tree(p)) == params_in(b).map_values(
            |p: Param| param_tree(p),
        ),
        defs_in(a).map_values(|d: Def| def_tree(d)) == defs_in(b).map_values(|d: Def| def_tree(d)),
        rules_in(a).map_values(|r: Rule| rule_tree(r)) == rules_in(b).map_values(
            |r: Rule| rule_tree(r),
        ),
    decreases a.len(),
{
    if a.len() > 0 {
        let n = a.len() - 1;
        assert forall|m: int| 0 <= m < a.drop_last().len() implies top_tree(
            #[trigger] a.drop_last()[m],
        ) == top_tree(b.drop_last()[m]) by {
            assert(a.drop_last()[m] == a[m]);
            assert(b.drop_last()[m] == b[m]);
        }
        lemma_tops_trees(a.drop_last(), b.drop_last());
        assert(top_tree(a[n]) == top_tree(b[n]));
        let pa = params_in(a.drop_last());
        let pb = params_in(b.drop_last());
        let da = defs_in(a.drop_last());
        let db = defs_in(b.drop_last());
        let ra = rules_in(a.drop_last());
        let rb = rules_in(b.drop_last());
        match a.last() {
            TopItem::Param(p) => {
                if let TopItem::Param(q) = b.last() {
                    assert(pa.push(p).map_values(|p: Param| param_tree(p)) =~= pa.map_values(
                        |p: Param| param_tree(p),
                    ).push(param_tree(p)));
                    assert(pb.push(q).map_values(|p: Param| param_tree(p)) =~= pb.map_values(
                        |p: Param| param_tree(p),
                    ).push(param_tree(q)));
                }
            },
            TopItem::Def(d) => {
                if let TopItem::Def(e) = b.last() {
                    assert(da.push(d).map_values(|d: Def| def_tree(d)) =~= da.map_values(
                        |d: Def| def_tree(d),
                    ).push(def_tree(d)));
                    assert(db.push(e).map_values(|d: Def| def_tree(d)) =~= db.map_values(
                        |d: Def| def_tree(d),
                    ).push(def_tree(e)));
                }
            },
            TopItem::Rule(r) => {
                if let TopItem::Rule(q) = b.last() {
                    assert(ra.push(r).map_values(|r: Rule| rule_tree(r)) =~= ra.map_values(
                        |r: Rule| rule_tree(r),
                    ).push(rule_tree(r)));
                    assert(rb.push(q).map_values(|r: Rule| rule_tree(r)) =~= rb.map_values(
                        |r: Rule| rule_tree(r),
                    ).push(rule_tree(q)));
                }
            },
        }
    }
}

/// `t[i..j]` writes one top-level item.
pub open spec fn spells_top(t: Seq<TokenSpec>, i: int, j: int, it: TopItem) -> bool {
    match it {
        TopItem::Param(p) => spells_param(t, i, j, p),
        TopItem::Def(d) => spells_def(t, i, j, d),
        TopItem::Rule(r) => spells_rule(t, i, j, r),
    }
}

/// The parameters among `items`, in order.
pub open spec fn params_in(items: Seq<TopItem>) -> Seq<Param>
    decreases items.len(),
{
    if items.len() == 0 {
        Seq::empty()
    } else {
        let rest = params_in(items.drop_last());
        match items.last() {
            TopItem::Param(p) => rest.push(p),
            _ => rest,
        }
    }
}

/// The defs among `items`, in order.
pub open spec fn defs_in(items: Seq<TopItem>) -> Seq<Def>
    decreases items.len(),
{
    if items.len() == 0 {
        Seq::empty()
    } else {
        let rest = defs_in(items.drop_last());
        match items.last() {
            TopItem::Def(d) => rest.push(d),
            _ => rest,
        }
    }
}

/// The rules among `items`, in order.
pub open spec fn rules_in(items: Seq<TopItem>) -> Seq<Rule>
    decreases items.len(),
{
    if items.len() == 0 {
        Seq::empty()
    } else {
        let rest = rules_in(items.drop_last());
        match items.last() {
            TopItem::Rule(r) => rest.push(r),
            _ => rest,
        }
    }
}

/// `t[i..j]` writes the top-level `items` in order, item `m` between
/// `cuts[m]` and `cuts[m + 1]`.
pub open spec fn spells_tops(
    t: Seq<TokenSpec>,
    i: int,
    j: int,
    items: Seq<TopItem>,
    cuts: Seq<int>,
) -> bool {
    &&& cuts.len() == items.len() + 1
    &&& cuts[0] == i
    &&& cuts.last() == j
    &&& forall|m: int| 0 <= m < items.len() ==> #[trigger] spells_top(t, cuts[m], cuts[m + 1], items[m])
}

/// The token stream, from its start up to an `Eof`, writes the tree `ast`.
pub open spec fn spells_program(t: Seq<TokenSpec>, ast: Ast) -> bool {
    exists|items: Seq<TopItem>, cuts: Seq<int>|
        {
            &&& #[trigger] spells_tops(t, 0, cuts.last(), items, cuts)
            &&& tag_at(t, cuts.last()) == Tag::Eof
            &&& ast.params@ == params_in(items)
            &&& ast.defs@ == defs_in(items)
            &&& ast.rules@ == rules_in(items)
        }
}

/// What writing one more top-level item keeps: the items written so far,
/// and the declarations of each kind.
pub proof fn lemma_tops_push(
    t: Seq<TokenSpec>,
    i: int,
    at: int,
    items: Seq<TopItem>,
    cuts: Seq<int>,
    it: TopItem,
    j: int,
)
    requires
        spells_tops(t, i, at, items, cuts),
        spells_top(t, at, j, it),
    ensures
        spells_tops(t, i, j, items.push(it), cuts.push(j)),
        params_in(items.push(it)) == match it {
            TopItem::Param(p) => params_in(items).push(p),
            _ => params_in(items),
        },
        defs_in(items.push(it)) == match it {
            TopItem::Def(d) => defs_in(items).push(d),
            _ => defs_in(items),
        },
        rules_in(items.push(it)) == match it {
            TopItem::Rule(r) => rules_in(items).push(r),
            _ => rules_in(items),
        },
{
    let items2 = items.push(it);
    let cuts2 = cuts.push(j);
    assert(items2.drop_last() =~= items);
    assert forall|m: int| 0 <= m < items2.len() implies #[trigger] spells_top(
        t,
        cuts2[m],
        cuts2[m + 1],
        items2[m],
    ) by {
        if m < items.len() {
            assert(items2[m] == items[m]);
            assert(cuts2[m] == cuts[m]);
            assert(cuts2[m + 1] == cuts[m + 1]);
        }
    }
}

/// The next planned top-level item: it begins with its keyword, and what
/// follows it extends no expression.
pub proof fn lemma_top_next(t: Seq<TokenSpec>, items: Seq<TopItem>, cuts: Seq<int>, m: int)
    requires
        spells_tops(t, 0, cuts.last(), items, cuts),
        tag_at(t, cuts.last()) == Tag::Eof,
        0 <= m <= items.len(),
        tag_at(t, cuts[m]) != Tag::Eof,
    ensures
        m < items.len(),
        spells_top(t, cuts[m], cuts[m + 1], items[m]),
        tag_level(tag_at(t, cuts[m + 1])) == -1,
{
    if m + 1 < items.len() {
        assert(spells_top(t, cuts[m + 1], cuts[m + 1 + 1], items[m + 1]));
    }
    assert(spells_top(t, cuts[m], cuts[m + 1], items[m]));
}

} // verus!
