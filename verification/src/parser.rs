//! Tokens to tree. Hand-written recursive descent.
//!
//! Collects errors rather than bailing, so one bad construct does not hide the
//! rest of the file. `ExprKind::Error` stands in for whatever failed to parse,
//! and later stages skip those nodes instead of cascading off them.
//!
//! Precedence, loosest to tightest: `or`, `and`, comparisons, `+ -`, `* /`,
//! the prefix operators `not`, `-` and `exists`, then literals, names, calls
//! and parentheses. All binary operators are left-associative.
use crate::ast::{
    Action, Ast, BinOp, Def, DefParam, Expr, ExprKind, Let, Name, Param, ParamKind, Rule, UnOp,
    shape, tree, trees, param_tree, def_param_tree, def_tree, action_tree, let_tree, rule_tree,
    ast_tree, name_tree, lemma_trees, AstTree, RuleTree, ParamTree, DefTree, ExprTree, LetTree,
};
use crate::diag::{Diagnostic, Span};
use crate::grammar::{
    kinds, covers,
    Field, RuleItem, TopItem, def_params_end, ident_at, kind_tag, lemma_binary_step, lemma_level_up,
    lemma_spells_kind, lemma_tops_push, picked, rule_built, spells, spells_action, spells_args,
    spells_def, spells_def_params, spells_list, spells_param, spells_program, spells_rule,
    spells_rule_item, spells_rule_items, spells_tops, params_in, defs_in, rules_in, tag_at, field_of,
    continues, spells_tail, tag_level, lemma_chain, lemma_first, lemma_args_front, starts_expr,
    rule_target,
    lemma_top_next, on_spine, lemma_spine_bound, lemma_spine_first, lemma_spine_up, lemma_binop_tag,
    binop_level, binop_tag, spells_top, item_tree, lemma_picked_trees, top_tree, lemma_tops_trees,
    field_tag, lemma_picked_same, TopTree, ItemTree,
};
use crate::token::{Tag, Token, TokenKind, TokenView, kind_view, tag_of, lemma_view_tag};
use crate::totality::{holes_free, lemma_program_whole};
use crate::lexer::TokenSpec;
use crate::said::{Said, said, one, lemma_said_push};
use crate::stretch::{
    Stretch, file_tree, kept_tree, lemma_file_tree, lemma_kept_tree, lemma_stretch_at, lemma_stretch_step,
    stretch_trees, stretches_said, writes_in_stretches,
};
use vstd::prelude::*;
use vstd::string::*;

verus! {

broadcast use lemma_view_tag;

/// A token stream the parser can walk: it ends with `Eof`, and nothing before
/// the end is one.
pub open spec fn well_formed_tokens(t: Seq<Token>) -> bool {
    &&& t.len() > 0
    &&& tag_of(t.last().kind) == Tag::Eof
}

/// What parsing `tokens` gives: a tree and errors only.
///
/// The tokens write at most one tree: where they write one, it comes back,
/// every node pointing at the tokens that write it, and nothing is reported.
/// Junk between top-level items is reported once, at its first token, and
/// skipped up to the next item, which still parses. A rule whose body holds
/// stray tokens, fields written twice or lacks a field is reported field by
/// field and at its name, kept where it still has what a rule needs, and the
/// items after it still parse.
pub open spec fn parse_result(tokens: Seq<Token>, ast: Ast, diags: Seq<Diagnostic>) -> bool {
    &&& forall|i: int| 0 <= i < diags.len() ==> (#[trigger] diags[i]).is_error_spec()
    &&& diags.len() == 0 ==> spells_program(kinds(tokens), ast)
    &&& forall|a: Ast| #[trigger]
        spells_program(kinds(tokens), a) ==> diags.len() == 0 && ast_tree(ast) == ast_tree(a)
    &&& diags.len() == 0 ==> holes_free(ast)
    &&& forall|st: Seq<Stretch>, cuts: Seq<int>| #[trigger]
        writes_in_stretches(kinds(tokens), st, cuts) ==> said(diags) == stretches_said(tokens, st, cuts)
            && ast_tree(ast) == file_tree(stretch_trees(tokens, st, cuts))
}

/// Parses one file's tokens, collecting every syntax error (see
/// `parse_result`).
pub fn parse(tokens: &[Token]) -> (r: (Ast, Vec<Diagnostic>))
    requires
        well_formed_tokens(tokens@),
    ensures
        parse_result(tokens@, r.0, r.1@),
{
    let mut parser = Parser { tokens, pos: 0, diags: Vec::new() };
    let ghost empty = parser.diags@;
    let ast = parser.program();
    proof {
        assert forall|st: Seq<Stretch>, cuts: Seq<int>| #[trigger]
            writes_in_stretches(kinds(tokens@), st, cuts) implies said(parser.diags@) == stretches_said(
            tokens@,
            st,
            cuts,
        ) by {
            assert(said(empty) =~= Seq::<(Seq<char>, Span)>::empty());
            assert(said(empty) + stretches_said(tokens@, st, cuts) =~= stretches_said(tokens@, st, cuts));
        }
        if parser.diags@.len() == 0 {
            lemma_program_whole(kinds(tokens@), ast);
        }
    }
    (ast, parser.diags)
}

/// Borrows the token slice: a `Parser` lives only for one `parse` call.
struct Parser<'a> {
    tokens: &'a [Token],
    /// Index of the next unconsumed token.
    pos: usize,
    diags: Vec<Diagnostic>,
}

impl<'a> Parser<'a> {
    spec fn wf(&self) -> bool {
        &&& well_formed_tokens(self.tokens@)
        &&& self.pos < self.tokens@.len()
        &&& forall|i: int|
            0 <= i < self.diags@.len() ==> (#[trigger] self.diags@[i]).is_error_spec()
    }

    /// What a call leaves unchanged: the tokens, and progress only forwards.
    spec fn advanced(&self, before: &Parser<'a>) -> bool {
        &&& self.wf()
        &&& self.tokens@ == before.tokens@
        &&& self.pos >= before.pos
        &&& self.diags@.len() >= before.diags@.len()
        &&& forall|k: int| 0 <= k < before.diags@.len() ==> #[trigger] self.diags@[k] == before.diags@[k]
    }

    /// No diagnostic was reported since `before`.
    spec fn clean(&self, before: &Parser<'a>) -> bool {
        self.diags@.len() == before.diags@.len()
    }

    /// Wherever the tokens from `before` write an expression at `level` that
    /// the next token would not extend, the parse stopped there, cleanly.
    spec fn finishes(&self, before: &Parser<'a>, level: int) -> bool {
        forall|j: int, x: Expr|
            #[trigger] spells(kinds(before.tokens@), level, before.pos as int, j, x) && !continues(
                level,
                tag_at(kinds(before.tokens@), j),
            ) ==> self.clean(before) && self.pos == j
    }

    /// Wherever the tokens from `before` write an expression at `level` that
    /// the next token would not extend, `e` is that expression, up to where
    /// its root points.
    spec fn settles(&self, before: &Parser<'a>, level: int, e: Expr) -> bool {
        forall|j: int, x: Expr|
            #[trigger] spells(kinds(before.tokens@), level, before.pos as int, j, x) && !continues(
                level,
                tag_at(kinds(before.tokens@), j),
            ) ==> shape(e) == shape(x)
    }

    /// Wherever the tokens from `before` write an expression at binary
    /// `level` that the next token would not extend, what is left up to
    /// there is a tail at that level, and nothing was reported.
    spec fn tail_left(&self, before: &Parser<'a>, level: int) -> bool {
        forall|j: int, x: Expr|
            #[trigger] spells(kinds(before.tokens@), level, before.pos as int, j, x) && !continues(
                level,
                tag_at(kinds(before.tokens@), j),
            ) ==> self.clean(before) && spells_tail(kinds(before.tokens@), level, self.pos as int, j)
    }

    /// The first operand of a chain, parsed: a tail is left.
    proof fn lemma_chain_start(level: int, before: Parser<'a>, after: Parser<'a>)
        requires
            0 <= level <= 4,
            after.finishes(&before, level + 1),
            after.tokens@ == before.tokens@,
        ensures
            after.tail_left(&before, level),
    {
        let t = kinds(before.tokens@);
        let i = before.pos as int;
        assert forall|j: int, x: Expr|
            #[trigger] spells(t, level, i, j, x) && !continues(level, tag_at(t, j)) implies after.clean(
            &before,
        ) && spells_tail(t, level, after.pos as int, j) by {
            lemma_chain(t, level, i, j, x);
            let (p, y) = choose|p: int, y: Expr| #[trigger]
                spells(t, level + 1, i, p, y) && spells_tail(t, level, p, j);
            assert(!continues(level + 1, tag_at(t, p)));
        }
    }

    /// One more operator and operand of a chain, parsed: a shorter tail is
    /// left.
    proof fn lemma_chain_step(
        level: int,
        orig: Parser<'a>,
        head: Parser<'a>,
        mid: Parser<'a>,
        after: Parser<'a>,
    )
        requires
            0 <= level <= 4,
            head.tail_left(&orig, level),
            head.tokens@ == orig.tokens@,
            mid.tokens@ == orig.tokens@,
            mid.pos == head.pos + 1,
            mid.diags@.len() == head.diags@.len(),
            tag_level(tag_at(kinds(orig.tokens@), head.pos as int)) == level,
            after.finishes(&mid, level + 1),
        ensures
            after.tail_left(&orig, level),
    {
        let t = kinds(orig.tokens@);
        let i = orig.pos as int;
        assert forall|j: int, x: Expr|
            #[trigger] spells(t, level, i, j, x) && !continues(level, tag_at(t, j)) implies after.clean(
            &orig,
        ) && spells_tail(t, level, after.pos as int, j) by {
            let k = head.pos as int;
            assert(spells_tail(t, level, k, j));
            let (q, y) = choose|q: int, y: Expr|
                k + 1 < q <= j && #[trigger] spells(t, level + 1, k + 1, q, y) && tag_level(
                    tag_at(t, k),
                ) == level && spells_tail(t, level, q, j);
            assert(!continues(level + 1, tag_at(t, q)));
        }
    }

    /// A chain whose next token is no operator of its level is complete.
    proof fn lemma_chain_end(level: int, orig: Parser<'a>, last: Parser<'a>)
        requires
            0 <= level <= 4,
            last.tail_left(&orig, level),
            last.tokens@ == orig.tokens@,
            tag_level(tag_at(kinds(orig.tokens@), last.pos as int)) != level,
        ensures
            last.finishes(&orig, level),
    {
        let t = kinds(orig.tokens@);
        let i = orig.pos as int;
        assert forall|j: int, x: Expr|
            #[trigger] spells(t, level, i, j, x) && !continues(level, tag_at(t, j)) implies last.clean(
            &orig,
        ) && last.pos == j by {
            assert(spells_tail(t, level, last.pos as int, j));
        }
    }

    /// Wherever the tokens from `before` write an expression at binary
    /// `level` that the next token would not extend, the node of its left
    /// spine that ends where this parse stands has the shape of `left`.
    spec fn spine(&self, before: &Parser<'a>, level: int, left: Expr) -> bool {
        forall|j: int, x: Expr|
            #[trigger] spells(kinds(before.tokens@), level, before.pos as int, j, x) && !continues(
                level,
                tag_at(kinds(before.tokens@), j),
            ) ==> exists|s: Expr| #[trigger]
                on_spine(kinds(before.tokens@), level, before.pos as int, j, x, self.pos as int, s)
                    && shape(left) == shape(s)
    }

    /// The first operand of a chain, parsed, is the bottom of its spine.
    proof fn lemma_spine_start(level: int, before: Parser<'a>, after: Parser<'a>, first: Expr)
        requires
            0 <= level <= 4,
            after.finishes(&before, level + 1),
            after.settles(&before, level + 1, first),
            after.tokens@ == before.tokens@,
        ensures
            after.spine(&before, level, first),
    {
        let t = kinds(before.tokens@);
        let i = before.pos as int;
        assert forall|j: int, x: Expr|
            #[trigger] spells(t, level, i, j, x) && !continues(level, tag_at(t, j)) implies exists|s: Expr| #[trigger]
            on_spine(t, level, i, j, x, after.pos as int, s) && shape(first) == shape(s) by {
            lemma_spine_first(t, level, i, j, x);
            let (p, y) = choose|p: int, y: Expr| #[trigger]
                on_spine(t, level, i, j, x, p, y) && spells(t, level + 1, i, p, y) && (p == j
                    || tag_level(tag_at(t, p)) == level);
            assert(!continues(level + 1, tag_at(t, p)));
            assert(on_spine(t, level, i, j, x, after.pos as int, y));
        }
    }

    /// One more operator and operand of a chain, parsed: the node of the
    /// spine one up.
    proof fn lemma_spine_step(
        level: int,
        orig: Parser<'a>,
        head: Parser<'a>,
        mid: Parser<'a>,
        after: Parser<'a>,
        left: Expr,
        right: Expr,
        e: Expr,
    )
        requires
            0 <= level <= 4,
            head.spine(&orig, level, left),
            head.tail_left(&orig, level),
            head.clean(&orig) ==> covers(kinds(orig.tokens@), orig.pos as int, head.pos as int, left.span),
            head.tokens@ == orig.tokens@,
            mid.tokens@ == orig.tokens@,
            mid.pos == head.pos + 1,
            mid.diags@.len() == head.diags@.len(),
            after.finishes(&mid, level + 1),
            after.settles(&mid, level + 1, right),
            after.clean(&mid) ==> covers(kinds(orig.tokens@), mid.pos as int, after.pos as int, right.span),
            e.kind matches ExprKind::Binary(op, l, r) && *l == left && *r == right && tag_at(
                kinds(orig.tokens@),
                head.pos as int,
            ) == binop_tag(op) && binop_level(op) == level,
        ensures
            after.spine(&orig, level, e),
    {
        let t = kinds(orig.tokens@);
        let i = orig.pos as int;
        let p = head.pos as int;
        assert forall|j: int, x: Expr|
            #[trigger] spells(t, level, i, j, x) && !continues(level, tag_at(t, j)) implies exists|s: Expr| #[trigger]
            on_spine(t, level, i, j, x, after.pos as int, s) && shape(e) == shape(s) by {
            let s = choose|s: Expr| #[trigger] on_spine(t, level, i, j, x, p, s) && shape(left) == shape(s);
            lemma_spine_bound(t, level, i, j, x, p, s);
            if let ExprKind::Binary(op, l, r) = e.kind {
                lemma_binop_tag(op);
            }
            assert(p != j);
            lemma_spine_up(t, level, i, j, x, p, s);
            let (q, up) = choose|q: int, up: Expr| #[trigger]
                on_spine(t, level, i, j, x, q, up) && p < q <= j && (q == j || tag_level(
                    tag_at(t, q),
                ) == level) && match up.kind {
                    ExprKind::Binary(op, l, r) => {
                        &&& *l == s
                        &&& binop_level(op) == level
                        &&& tag_at(t, p) == binop_tag(op)
                        &&& spells(t, level + 1, p + 1, q, *r)
                        &&& covers(t, p + 1, q, r.span)
                    },
                    _ => false,
                };
            if let ExprKind::Binary(op2, l2, r2) = up.kind {
                lemma_binop_tag(op2);
                assert(!continues(level + 1, tag_at(t, q)));
                assert(spells(kinds(mid.tokens@), level + 1, mid.pos as int, q, *r2));
                assert(after.pos == q);
                assert(tree(left) == tree(s));
                assert(tree(right) == tree(*r2));
                assert(shape(e) == shape(up));
            }
        }
    }

    /// A chain whose next token is no operator of its level is the whole
    /// expression.
    proof fn lemma_spine_end(level: int, orig: Parser<'a>, last: Parser<'a>, left: Expr)
        requires
            0 <= level <= 4,
            last.spine(&orig, level, left),
            last.tokens@ == orig.tokens@,
            tag_level(tag_at(kinds(orig.tokens@), last.pos as int)) != level,
        ensures
            last.settles(&orig, level, left),
    {
        let t = kinds(orig.tokens@);
        let i = orig.pos as int;
        assert forall|j: int, x: Expr|
            #[trigger] spells(t, level, i, j, x) && !continues(level, tag_at(t, j)) implies shape(left)
                == shape(x) by {
            let p = last.pos as int;
            let s = choose|s: Expr| #[trigger] on_spine(t, level, i, j, x, p, s) && shape(left) == shape(s);
            lemma_spine_bound(t, level, i, j, x, p, s);
            if p < j {
                lemma_spine_up(t, level, i, j, x, p, s);
                let (q, up) = choose|q: int, up: Expr| #[trigger]
                    on_spine(t, level, i, j, x, q, up) && p < q <= j && (q == j || tag_level(
                        tag_at(t, q),
                    ) == level) && match up.kind {
                        ExprKind::Binary(op, l, r) => {
                            &&& *l == s
                            &&& binop_level(op) == level
                            &&& tag_at(t, p) == binop_tag(op)
                            &&& spells(t, level + 1, p + 1, q, *r)
                            &&& covers(t, p + 1, q, r.span)
                        },
                        _ => false,
                    };
                if let ExprKind::Binary(op2, l2, r2) = up.kind {
                    lemma_binop_tag(op2);
                }
            }
        }
    }

    spec fn remaining(&self) -> int {
        self.tokens@.len() - self.pos
    }

    #[verifier::rlimit(60)]
    fn program(&mut self) -> (ast: Ast)
        requires
            old(self).wf(),
            old(self).pos == 0,
        ensures
            final(self).advanced(old(self)),
            final(self).clean(old(self)) ==> spells_program(kinds(old(self).tokens@), ast),
            forall|a: Ast| #[trigger]
                spells_program(kinds(old(self).tokens@), a) ==> final(self).clean(old(self))
                    && ast_tree(ast) == ast_tree(a),
            forall|st: Seq<Stretch>, cuts: Seq<int>| #[trigger]
                writes_in_stretches(kinds(old(self).tokens@), st, cuts) ==> said(final(self).diags@)
                    == said(old(self).diags@) + stretches_said(old(self).tokens@, st, cuts) && ast_tree(ast)
                    == file_tree(stretch_trees(old(self).tokens@, st, cuts)),
    {
        let ghost t = kinds(old(self).tokens@);
        let mut params: Vec<Param> = Vec::new();
        let mut defs: Vec<Def> = Vec::new();
        let mut rules: Vec<Rule> = Vec::new();
        let ghost mut items: Seq<TopItem> = Seq::empty();
        let ghost mut cuts: Seq<int> = seq![0];
        let ghost mut n: int = 0;
        proof {
            assert forall|st: Seq<Stretch>, cuts2: Seq<int>| #[trigger]
                writes_in_stretches(t, st, cuts2) implies items.map_values(|x: TopItem| top_tree(x))
                == stretch_trees(old(self).tokens@, st.take(0), cuts2) && said(self.diags@) == said(
                old(self).diags@,
            ) + stretches_said(old(self).tokens@, st.take(0), cuts2) by {
                assert(st.take(0).len() == 0);
                assert(items.map_values(|x: TopItem| top_tree(x)) =~= Seq::<TopTree>::empty());
                assert(said(old(self).diags@) + Seq::<(Seq<char>, Span)>::empty() =~= said(old(self).diags@));
            }
        }
        while !self.at_end()
            invariant
                0 <= n,
                params@ == params_in(items),
                defs@ == defs_in(items),
                rules@ == rules_in(items),
                forall|st: Seq<Stretch>, cuts2: Seq<int>| #[trigger]
                    writes_in_stretches(t, st, cuts2) ==> n <= st.len() && self.pos == cuts2[n]
                        && items.map_values(|x: TopItem| top_tree(x)) == stretch_trees(
                        old(self).tokens@,
                        st.take(n),
                        cuts2,
                    ) && said(self.diags@) == said(old(self).diags@) + stretches_said(
                        old(self).tokens@,
                        st.take(n),
                        cuts2,
                    ),
                self.advanced(old(self)),
                t == kinds(old(self).tokens@),
                self.clean(old(self)) ==> {
                    &&& spells_tops(kinds(self.tokens@), 0, self.pos as int, items, cuts)
                    &&& params@ == params_in(items)
                    &&& defs@ == defs_in(items)
                    &&& rules@ == rules_in(items)
                },
                forall|items2: Seq<TopItem>, cuts2: Seq<int>|
                    #[trigger] spells_tops(t, 0, cuts2.last(), items2, cuts2) && tag_at(
                        t,
                        cuts2.last(),
                    ) == Tag::Eof ==> self.clean(old(self)) && items.len() <= items2.len()
                        && self.pos == cuts2[items.len() as int] && forall|m: int|
                        0 <= m < items.len() ==> top_tree(#[trigger] items[m]) == top_tree(items2[m]),
            decreases self.remaining(),
        {
            let ghost at = self.pos as int;
            let ghost done = items;
            let ghost start = *self;
            match self.peek_tag() {
                Tag::Param => {
                    let got = self.param();
                    let ghost got_view = got;
                    if let Some(p) = got {
                        proof {
                            lemma_in_push(items, TopItem::Param(p));
                            if self.clean(old(self)) {
                                lemma_tops_push(
                                    kinds(self.tokens@),
                                    0,
                                    at,
                                    items,
                                    cuts,
                                    TopItem::Param(p),
                                    self.pos as int,
                                );
                            }
                            items = items.push(TopItem::Param(p));
                            cuts = cuts.push(self.pos as int);
                        }
                        params.push(p);
                    }
                    proof {
                        assert forall|items2: Seq<TopItem>, cuts2: Seq<int>|
                            #[trigger] spells_tops(t, 0, cuts2.last(), items2, cuts2) && tag_at(
                                t,
                                cuts2.last(),
                            ) == Tag::Eof implies self.clean(old(self)) && items.len()
                            <= items2.len() && self.pos == cuts2[items.len() as int] && forall|m2: int|
                            0 <= m2 < items.len() ==> top_tree(#[trigger] items[m2]) == top_tree(
                                items2[m2],
                            ) by {
                            let m = done.len() as int;
                            lemma_top_next(t, items2, cuts2, m);
                            if let TopItem::Param(p2) = items2[m] {
                                assert(spells_param(t, at, cuts2[m + 1], p2));
                            }
                            assert forall|m2: int| 0 <= m2 < items.len() implies top_tree(
                                #[trigger] items[m2],
                            ) == top_tree(items2[m2]) by {
                                if m2 < m {
                                    assert(items[m2] == done[m2]);
                                }
                            }
                        }
                    }
                    proof {
                        assert forall|st: Seq<Stretch>, cuts2: Seq<int>| #[trigger]
                            writes_in_stretches(t, st, cuts2) implies n + 1 <= st.len() && self.pos
                            == cuts2[n + 1] && items.map_values(|x: TopItem| top_tree(x)) == stretch_trees(
                            old(self).tokens@,
                            st.take(n + 1),
                            cuts2,
                        ) && said(self.diags@) == said(old(self).diags@) + stretches_said(
                            old(self).tokens@,
                            st.take(n + 1),
                            cuts2,
                        ) by {
                            lemma_stretch_at(t, st, cuts2, n);
                            lemma_stretch_step(old(self).tokens@, st, cuts2, n);
                            if let Stretch::Item(TopItem::Param(p2)) = st[n] {
                                assert(spells_param(kinds(start.tokens@), start.pos as int, cuts2[n + 1], p2));
                                assert(got_view is Some);
                                assert(items.map_values(|x: TopItem| top_tree(x)) =~= done.map_values(
                                    |x: TopItem| top_tree(x),
                                ).push(top_tree(TopItem::Param(p2))));
                                assert(self.diags@ =~= start.diags@);
                                assert(said(self.diags@) =~= said(old(self).diags@) + stretches_said(
                                    old(self).tokens@,
                                    st.take(n + 1),
                                    cuts2,
                                ));
                            }
                        }
                        n = n + 1;
                    }
                },
                Tag::Def => {
                    let got = self.def();
                    let ghost got_view = got;
                    if let Some(d) = got {
                        proof {
                            lemma_in_push(items, TopItem::Def(d));
                            if self.clean(old(self)) {
                                lemma_tops_push(
                                    kinds(self.tokens@),
                                    0,
                                    at,
                                    items,
                                    cuts,
                                    TopItem::Def(d),
                                    self.pos as int,
                                );
                            }
                            items = items.push(TopItem::Def(d));
                            cuts = cuts.push(self.pos as int);
                        }
                        defs.push(d);
                    }
                    proof {
                        assert forall|items2: Seq<TopItem>, cuts2: Seq<int>|
                            #[trigger] spells_tops(t, 0, cuts2.last(), items2, cuts2) && tag_at(
                                t,
                                cuts2.last(),
                            ) == Tag::Eof implies self.clean(old(self)) && items.len()
                            <= items2.len() && self.pos == cuts2[items.len() as int] && forall|m2: int|
                            0 <= m2 < items.len() ==> top_tree(#[trigger] items[m2]) == top_tree(
                                items2[m2],
                            ) by {
                            let m = done.len() as int;
                            lemma_top_next(t, items2, cuts2, m);
                            if let TopItem::Def(d2) = items2[m] {
                                assert(spells_def(t, at, cuts2[m + 1], d2));
                                assert(!continues(0, tag_at(t, cuts2[m + 1])));
                            }
                            assert forall|m2: int| 0 <= m2 < items.len() implies top_tree(
                                #[trigger] items[m2],
                            ) == top_tree(items2[m2]) by {
                                if m2 < m {
                                    assert(items[m2] == done[m2]);
                                }
                            }
                        }
                    }
                    proof {
                        assert forall|st: Seq<Stretch>, cuts2: Seq<int>| #[trigger]
                            writes_in_stretches(t, st, cuts2) implies n + 1 <= st.len() && self.pos
                            == cuts2[n + 1] && items.map_values(|x: TopItem| top_tree(x)) == stretch_trees(
                            old(self).tokens@,
                            st.take(n + 1),
                            cuts2,
                        ) && said(self.diags@) == said(old(self).diags@) + stretches_said(
                            old(self).tokens@,
                            st.take(n + 1),
                            cuts2,
                        ) by {
                            lemma_stretch_at(t, st, cuts2, n);
                            lemma_stretch_step(old(self).tokens@, st, cuts2, n);
                            if let Stretch::Item(TopItem::Def(d2)) = st[n] {
                                assert(spells_def(kinds(start.tokens@), start.pos as int, cuts2[n + 1], d2));
                                assert(!continues(0, tag_at(t, cuts2[n + 1])));
                                assert(got_view is Some);
                                assert(items.map_values(|x: TopItem| top_tree(x)) =~= done.map_values(
                                    |x: TopItem| top_tree(x),
                                ).push(top_tree(TopItem::Def(d2))));
                                assert(self.diags@ =~= start.diags@);
                                assert(said(self.diags@) =~= said(old(self).diags@) + stretches_said(
                                    old(self).tokens@,
                                    st.take(n + 1),
                                    cuts2,
                                ));
                            }
                        }
                        n = n + 1;
                    }
                },
                Tag::Rule => {
                    let got = self.rule();
                    let ghost got_view = got;
                    if let Some(r) = got {
                        proof {
                            lemma_in_push(items, TopItem::Rule(r));
                            if self.clean(old(self)) {
                                lemma_tops_push(
                                    kinds(self.tokens@),
                                    0,
                                    at,
                                    items,
                                    cuts,
                                    TopItem::Rule(r),
                                    self.pos as int,
                                );
                            }
                            items = items.push(TopItem::Rule(r));
                            cuts = cuts.push(self.pos as int);
                        }
                        rules.push(r);
                    }
                    proof {
                        assert forall|items2: Seq<TopItem>, cuts2: Seq<int>|
                            #[trigger] spells_tops(t, 0, cuts2.last(), items2, cuts2) && tag_at(
                                t,
                                cuts2.last(),
                            ) == Tag::Eof implies self.clean(old(self)) && items.len()
                            <= items2.len() && self.pos == cuts2[items.len() as int] && forall|m2: int|
                            0 <= m2 < items.len() ==> top_tree(#[trigger] items[m2]) == top_tree(
                                items2[m2],
                            ) by {
                            let m = done.len() as int;
                            lemma_top_next(t, items2, cuts2, m);
                            if let TopItem::Rule(r2) = items2[m] {
                                assert(spells_rule(t, at, cuts2[m + 1], r2));
                            }
                            assert forall|m2: int| 0 <= m2 < items.len() implies top_tree(
                                #[trigger] items[m2],
                            ) == top_tree(items2[m2]) by {
                                if m2 < m {
                                    assert(items[m2] == done[m2]);
                                }
                            }
                        }
                    }
                    proof {
                        assert forall|st: Seq<Stretch>, cuts2: Seq<int>| #[trigger]
                            writes_in_stretches(t, st, cuts2) implies n + 1 <= st.len() && self.pos
                            == cuts2[n + 1] && items.map_values(|x: TopItem| top_tree(x)) == stretch_trees(
                            old(self).tokens@,
                            st.take(n + 1),
                            cuts2,
                        ) && said(self.diags@) == said(old(self).diags@) + stretches_said(
                            old(self).tokens@,
                            st.take(n + 1),
                            cuts2,
                        ) by {
                            lemma_stretch_at(t, st, cuts2, n);
                            lemma_stretch_step(old(self).tokens@, st, cuts2, n);
                            if let Stretch::Item(TopItem::Rule(r2)) = st[n] {
                                assert(spells_rule(kinds(start.tokens@), start.pos as int, cuts2[n + 1], r2));
                                assert(got_view is Some);
                                assert(items.map_values(|x: TopItem| top_tree(x)) =~= done.map_values(
                                    |x: TopItem| top_tree(x),
                                ).push(top_tree(TopItem::Rule(r2))));
                                assert(self.diags@ =~= start.diags@);
                                assert(said(self.diags@) =~= said(old(self).diags@) + stretches_said(
                                    old(self).tokens@,
                                    st.take(n + 1),
                                    cuts2,
                                ));
                            }
                            if let Stretch::Broken(pieces, body) = st[n] {
                                let e = cuts2[n + 1] - 1;
                                assert(body_with_strays(kinds(start.tokens@), start.pos + 3, e, pieces, body));
                                if got_view is Some {
                                    lemma_kept_tree(old(self).tokens@, at, e, fields_in(pieces), got_view->0);
                                    assert(items.map_values(|x: TopItem| top_tree(x)) =~= done.map_values(
                                        |x: TopItem| top_tree(x),
                                    ).push(TopTree::Rule(kept_tree(old(self).tokens@, at, e, fields_in(pieces)))));
                                }
                                assert(said(self.diags@) =~= said(old(self).diags@) + stretches_said(
                                    old(self).tokens@,
                                    st.take(n + 1),
                                    cuts2,
                                ));
                            }
                        }
                        n = n + 1;
                    }
                },
                _ => {
                    proof {
                        assert forall|items2: Seq<TopItem>, cuts2: Seq<int>|
                            #[trigger] spells_tops(t, 0, cuts2.last(), items2, cuts2) && tag_at(
                                t,
                                cuts2.last(),
                            ) == Tag::Eof implies false by {
                            lemma_top_next(t, items2, cuts2, done.len() as int);
                        }
                    }
                    let span = self.peek_span();
                    self.error(span, String::from_str("expected `rule`"));
                    self.bump();
                    let ghost skipping = *self;
                    self.recover();
                    proof {
                        assert forall|st: Seq<Stretch>, cuts2: Seq<int>| #[trigger]
                            writes_in_stretches(t, st, cuts2) implies n + 1 <= st.len() && self.pos
                            == cuts2[n + 1] && items.map_values(|x: TopItem| top_tree(x)) == stretch_trees(
                            old(self).tokens@,
                            st.take(n + 1),
                            cuts2,
                        ) && said(self.diags@) == said(old(self).diags@) + stretches_said(
                            old(self).tokens@,
                            st.take(n + 1),
                            cuts2,
                        ) by {
                            lemma_stretch_at(t, st, cuts2, n);
                            lemma_stretch_step(old(self).tokens@, st, cuts2, n);
                            assert(st[n] is Junk);
                            let j = cuts2[n + 1];
                            let f = self.pos as int;
                            assert(skipping.pos == at + 1);
                            assert(tag_at(t, f) == tag_of(self.tokens@[f].kind));
                            assert(tag_at(t, j) == tag_of(self.tokens@[j].kind));
                            if f < j {
                                assert(!resumes_at(tag_at(t, f)));
                            }
                            if f > j {
                                assert(!resumes_at(tag_of(skipping.tokens@[j].kind)));
                            }
                            assert(f == j);
                            assert(span == old(self).tokens@[cuts2[n]].span);
                            assert(said(self.diags@) =~= said(old(self).diags@) + stretches_said(
                                old(self).tokens@,
                                st.take(n + 1),
                                cuts2,
                            ));
                        }
                        n = n + 1;
                    }
                },
            }
        }
        let ast = Ast { params, defs, rules };
        proof {
            if self.clean(old(self)) {
                assert(spells_tops(kinds(self.tokens@), 0, self.pos as int, items, cuts));
                assert(tag_at(kinds(self.tokens@), cuts.last()) == Tag::Eof);
            }
            assert forall|st: Seq<Stretch>, cuts2: Seq<int>| #[trigger]
                writes_in_stretches(t, st, cuts2) implies said(self.diags@) == said(old(self).diags@)
                + stretches_said(old(self).tokens@, st, cuts2) && ast_tree(ast) == file_tree(
                stretch_trees(old(self).tokens@, st, cuts2),
            ) by {
                if n < st.len() {
                    lemma_stretch_at(t, st, cuts2, n);
                }
                assert(st.take(n) =~= st);
                lemma_file_tree(items);
                assert(ast_tree(ast) == tops_tree(items));
            }
            assert forall|a: Ast| #[trigger] spells_program(t, a) implies self.clean(old(self))
                && ast_tree(ast) == ast_tree(a) by {
                let (items2, cuts2) = choose|items2: Seq<TopItem>, cuts2: Seq<int>|
                    {
                        &&& #[trigger] spells_tops(t, 0, cuts2.last(), items2, cuts2)
                        &&& tag_at(t, cuts2.last()) == Tag::Eof
                        &&& a.params@ == params_in(items2)
                        &&& a.defs@ == defs_in(items2)
                        &&& a.rules@ == rules_in(items2)
                    };
                if items.len() < items2.len() {
                    let m = items.len() as int;
                    assert(spells_top(t, cuts2[m], cuts2[m + 1], items2[m]));
                }
                lemma_tops_trees(items, items2);
            }
        }
        ast
    }

    /// `param name: int`. Called at `param`.
    fn param(&mut self) -> (r: Option<Param>)
        requires
            old(self).wf(),
            tag_at(kinds(old(self).tokens@), old(self).pos as int) == Tag::Param,
        ensures
            final(self).advanced(old(self)),
            final(self).pos > old(self).pos,
            r is None ==> !final(self).clean(old(self)),
            final(self).clean(old(self)) ==> spells_param(
                kinds(old(self).tokens@),
                old(self).pos as int,
                final(self).pos as int,
                r->0,
            ),
            forall|j: int, p: Param|
                #[trigger] spells_param(kinds(old(self).tokens@), old(self).pos as int, j, p)
                    ==> final(self).clean(old(self)) && final(self).pos == j && param_tree(r->0)
                    == param_tree(p),
    {
        let start = self.peek_span();
        self.bump();
        let name = self.name()?;
        let kind = self.param_type()?;
        let end = self.prev_span();
        Some(Param { name, kind, span: start.to(end) })
    }

    /// `: int` or `: float`.
    fn param_type(&mut self) -> (r: Option<ParamKind>)
        requires
            old(self).wf(),
        ensures
            final(self).advanced(old(self)),
            r is Some ==> {
                &&& final(self).clean(old(self))
                &&& final(self).pos == old(self).pos + 2
                &&& tag_at(kinds(old(self).tokens@), old(self).pos as int) == Tag::Colon
                &&& tag_at(kinds(old(self).tokens@), old(self).pos + 1) == kind_tag(r->0)
            },
            r is None ==> !final(self).clean(old(self)),
            tag_at(kinds(old(self).tokens@), old(self).pos as int) == Tag::Colon && (tag_at(
                kinds(old(self).tokens@),
                old(self).pos + 1,
            ) == Tag::IntType || tag_at(kinds(old(self).tokens@), old(self).pos + 1) == Tag::FloatType)
                ==> r is Some,
    {
        if !self.expect(Tag::Colon, "expected `:`") {
            return None;
        }
        match self.peek_tag() {
            Tag::IntType => {
                self.bump();
                Some(ParamKind::Int)
            },
            Tag::FloatType => {
                self.bump();
                Some(ParamKind::Float)
            },
            _ => {
                let span = self.peek_span();
                self.error(span, String::from_str("expected `int` or `float`"));
                None
            },
        }
    }

    /// `def name(a: int, b: float) = expr`. Called at `def`.
    fn def(&mut self) -> (r: Option<Def>)
        requires
            old(self).wf(),
            tag_at(kinds(old(self).tokens@), old(self).pos as int) == Tag::Def,
        ensures
            final(self).advanced(old(self)),
            final(self).pos > old(self).pos,
            r is None ==> !final(self).clean(old(self)),
            final(self).clean(old(self)) ==> spells_def(
                kinds(old(self).tokens@),
                old(self).pos as int,
                final(self).pos as int,
                r->0,
            ),
            forall|j: int, d: Def|
                #[trigger] spells_def(kinds(old(self).tokens@), old(self).pos as int, j, d) && !continues(
                    0,
                    tag_at(kinds(old(self).tokens@), j),
                ) ==> final(self).clean(old(self)) && final(self).pos == j && def_tree(r->0)
                    == def_tree(d),
    {
        let ghost t = kinds(old(self).tokens@);
        let ghost i = old(self).pos as int;
        let ghost first = old(self).pos + 3;
        let start = self.peek_span();
        self.bump();
        let name = self.name()?;
        if !self.expect(Tag::LParen, "expected `(` after the def name") {
            return None;
        }
        let mut params: Vec<DefParam> = Vec::new();
        if !self.at(Tag::RParen) {
            loop
                invariant_except_break
                    self.clean(old(self)) ==> {
                        &&& self.pos == first + 4 * params@.len()
                        &&& params@.len() > 0 ==> tag_at(kinds(self.tokens@), self.pos - 1) == Tag::Comma
                    },
                    forall|j: int, d: Def|
                        #[trigger] spells_def(t, i, j, d) && !continues(0, tag_at(t, j))
                            ==> self.clean(old(self)) && params@.len() < d.params@.len()
                            && self.pos == first + 4 * params@.len(),
                invariant
                    self.advanced(old(self)),
                    self.pos > old(self).pos,
                    first == old(self).pos + 3,
                    t == kinds(old(self).tokens@),
                    i == old(self).pos,
                    self.clean(old(self)) ==> spells_def_params(kinds(self.tokens@), first, params@),
                    forall|j: int, d: Def|
                        #[trigger] spells_def(t, i, j, d) && !continues(0, tag_at(t, j))
                            ==> params@.len() <= d.params@.len() && forall|m: int|
                            0 <= m < params@.len() ==> def_param_tree(#[trigger] params@[m])
                                == def_param_tree(d.params@[m]),
                ensures
                    self.clean(old(self)) ==> self.pos == def_params_end(
                        first,
                        params@.len() as int,
                    ),
                    forall|j: int, d: Def|
                        #[trigger] spells_def(t, i, j, d) && !continues(0, tag_at(t, j))
                            ==> self.clean(old(self)) && self.pos == def_params_end(
                            first,
                            d.params@.len() as int,
                        ),
                decreases self.remaining(),
            {
                let ghost at = self.pos as int;
                proof {
                    assert forall|j: int, d: Def|
                        #[trigger] spells_def(t, i, j, d) && !continues(0, tag_at(t, j)) implies {
                            &&& tag_at(t, at) == Tag::Identifier
                            &&& tag_at(t, at + 1) == Tag::Colon
                            &&& tag_at(t, at + 2) == Tag::IntType || tag_at(t, at + 2)
                                == Tag::FloatType
                        } by {
                        let m = params@.len() as int;
                        assert(spells_def_params(t, i + 3, d.params@));
                        assert(ident_at(t, first + 4 * m, d.params@[m].name.text@));
                    }
                }
                let p_start = self.peek_span();
                let p_name = self.name()?;
                let kind = self.param_type()?;
                let p_end = self.prev_span();
                let ghost before = params@;
                params.push(DefParam { name: p_name, kind, span: p_start.to(p_end) });
                proof {
                    if self.clean(old(self)) {
                        assert forall|m: int| 0 <= m < params@.len() implies {
                            &&& ident_at(kinds(self.tokens@), first + 4 * m, (#[trigger] params@[m]).name.text@)
                            &&& tag_at(kinds(self.tokens@), first + 4 * m + 1) == Tag::Colon
                            &&& tag_at(kinds(self.tokens@), first + 4 * m + 2) == kind_tag(params@[m].kind)
                            &&& m + 1 < params@.len() ==> tag_at(kinds(self.tokens@), first + 4 * m + 3)
                                == Tag::Comma
                        } by {
                            if m < before.len() {
                                assert(params@[m] == before[m]);
                            }
                        }
                    }
                    assert forall|j: int, d: Def|
                        #[trigger] spells_def(t, i, j, d) && !continues(0, tag_at(t, j)) implies {
                            &&& self.clean(old(self))
                            &&& self.pos == first + 4 * before.len() + 3
                            &&& if before.len() + 1 < d.params@.len() {
                                tag_at(t, self.pos as int) == Tag::Comma
                            } else {
                                tag_at(t, self.pos as int) == Tag::RParen
                            }
                        } by {
                        let m = before.len() as int;
                        assert(spells_def_params(t, i + 3, d.params@));
                        assert(tag_at(t, first + 4 * m + 1) == Tag::Colon);
                        assert(self.pos == first + 4 * m + 3);
                        if m + 1 >= d.params@.len() {
                            assert(def_params_end(first, d.params@.len() as int) == first + 4 * m
                                + 3);
                            assert(tag_at(t, def_params_end(first, d.params@.len() as int))
                                == Tag::RParen);
                        } else {
                            assert(ident_at(t, first + 4 * m, d.params@[m].name.text@));
                            assert(tag_at(t, first + 4 * m + 3) == Tag::Comma);
                        }
                    }
                    assert forall|j: int, d: Def|
                        #[trigger] spells_def(t, i, j, d) && !continues(0, tag_at(t, j)) implies params@.len()
                            <= d.params@.len() && forall|m: int|
                            0 <= m < params@.len() ==> def_param_tree(#[trigger] params@[m])
                                == def_param_tree(d.params@[m]) by {
                        let m0 = before.len() as int;
                        assert(spells_def_params(t, i + 3, d.params@));
                        assert(ident_at(t, first + 4 * m0, d.params@[m0].name.text@));
                        assert(at == first + 4 * m0);
                        assert forall|m: int| 0 <= m < params@.len() implies def_param_tree(
                            #[trigger] params@[m],
                        ) == def_param_tree(d.params@[m]) by {
                            if m < m0 {
                                assert(params@[m] == before[m]);
                            }
                        }
                    }
                }
                if !self.eat(Tag::Comma) {
                    break;
                }
            }
        } else {
            proof {
                assert forall|j: int, d: Def|
                    #[trigger] spells_def(t, i, j, d) && !continues(0, tag_at(t, j)) implies d.params@.len()
                        == 0 by {
                    if d.params@.len() > 0 {
                        assert(spells_def_params(t, i + 3, d.params@));
                        assert(ident_at(t, i + 3 + 4 * 0, d.params@[0].name.text@));
                        assert(tag_at(t, i + 3) == Tag::Identifier);
                    }
                }
            }
        }
        if !self.expect(Tag::RParen, "expected `)` to close the def parameters") {
            return None;
        }
        if !self.expect(Tag::Eq, "expected `=` before the def body") {
            return None;
        }
        let ghost mid = *self;
        let ghost param_list = params@;
        let body = self.expr();
        proof {
            assert forall|j: int, d: Def|
                #[trigger] spells_def(t, i, j, d) && !continues(0, tag_at(t, j)) implies self.clean(
                    old(self),
                ) && self.pos == j by {
                assert(spells(kinds(mid.tokens@), 0, mid.pos as int, j, d.body));
            }
        }
        let span = start.to(body.span);
        let d = Def { name, params, body, span };
        proof {
            assert forall|j: int, d2: Def|
                #[trigger] spells_def(t, i, j, d2) && !continues(0, tag_at(t, j)) implies def_tree(d)
                    == def_tree(d2) by {
                assert(spells(kinds(mid.tokens@), 0, mid.pos as int, j, d2.body));
                assert(param_list.len() == d2.params@.len());
                assert(tree(d.body) == tree(d2.body));
                assert(d.params@.map_values(|p: DefParam| def_param_tree(p)) =~= d2.params@.map_values(
                    |p: DefParam| def_param_tree(p),
                ));
            }
        }
        Some(d)
    }

    /// A whole rule, or `None` when it cannot be salvaged. Called at `rule`.
    ///
    /// Inside the body, a token that begins no field is reported and skipped
    /// on its own, and a field allowed once but written again is reported at
    /// its keyword, the later one kept. At the closing brace, the first of
    /// `priority`, `category` and `do` that is missing is reported at the
    /// rule's name, and the rule is dropped with its brace consumed.
    #[verifier::rlimit(100)]
    #[verifier::spinoff_prover]
    fn rule(&mut self) -> (r: Option<Rule>)
        requires
            old(self).wf(),
            tag_at(kinds(old(self).tokens@), old(self).pos as int) == Tag::Rule,
        ensures
            final(self).advanced(old(self)),
            final(self).pos > old(self).pos,
            r is None ==> !final(self).clean(old(self)),
            final(self).clean(old(self)) ==> spells_rule(
                kinds(old(self).tokens@),
                old(self).pos as int,
                final(self).pos as int,
                r->0,
            ),
            forall|j: int, rule: Rule|
                #[trigger] spells_rule(kinds(old(self).tokens@), old(self).pos as int, j, rule)
                    ==> final(self).clean(old(self)) && final(self).pos == j && rule_tree(r->0)
                    == rule_tree(rule),
            forall|e: int, pieces: Seq<Option<RuleItem>>, cuts: Seq<int>|
                #[trigger] body_with_strays(kinds(old(self).tokens@), old(self).pos + 3, e, pieces, cuts)
                    && tag_at(kinds(old(self).tokens@), old(self).pos + 1) == Tag::Identifier
                    && tag_at(kinds(old(self).tokens@), old(self).pos + 2) == Tag::LBrace ==> {
                    &&& final(self).pos == e + 1
                    &&& said(final(self).diags@) == said(old(self).diags@) + strays_said(
                        old(self).tokens@,
                        pieces,
                        cuts,
                    ) + missing_said(fields_in(pieces), old(self).tokens@[old(self).pos + 1].span)
                    &&& (r is Some <==> has_needed(fields_in(pieces)))
                    &&& r is Some ==> {
                        &&& rule_kept(fields_in(pieces), r->0)
                        &&& ident_at(kinds(old(self).tokens@), old(self).pos + 1, r->0.name.text@)
                        &&& r->0.name.span == old(self).tokens@[old(self).pos + 1].span
                        &&& covers(kinds(old(self).tokens@), old(self).pos as int, e + 1, r->0.span)
                    }
                },
    {
        let ghost t = kinds(old(self).tokens@);
        let ghost ts = old(self).tokens@;
        let ghost i = old(self).pos as int;
        let start = self.peek_span();
        self.bump();
        let name = self.name()?;

        let brace = self.peek_span();
        if !self.eat(Tag::LBrace) {
            self.error(brace, String::from_str("expected `{` after the rule name"));
            return None;
        }

        let mut priority: Option<Expr> = None;
        let mut category: Option<Name> = None;
        let mut exclusive = false;
        let mut action: Option<Action> = None;
        let mut because: Option<String> = None;
        let mut lets: Vec<Let> = Vec::new();
        let mut conditions: Vec<Expr> = Vec::new();
        let ghost body = old(self).pos + 3;
        let ghost mut items: Seq<RuleItem> = Seq::empty();
        let ghost mut cuts: Seq<int> = seq![body];
        let ghost mut read: int = 0;
        proof {
            assert forall|e: int, pieces: Seq<Option<RuleItem>>, cuts2: Seq<int>|
                #[trigger] body_with_strays(t, body, e, pieces, cuts2) implies 0 <= pieces.len()
                && self.pos == cuts2[0] && said(self.diags@)
                == said(old(self).diags@) + strays_said(ts, pieces.take(0), cuts2) && same_fields(
                items,
                fields_in(pieces.take(0)),
            ) by {
                reveal_with_fuel(fields_in, 1);
                reveal_with_fuel(strays_said, 1);
                reveal(same_fields);
                reveal(body_with_strays);
                assert(pieces.take(0) =~= Seq::<Option<RuleItem>>::empty());
                assert(said(self.diags@) =~= said(old(self).diags@) + Seq::<(Seq<char>, Span)>::empty());
            }
        }

        // Every arm consumes at least one token, or this loop would spin.
        while !self.at(Tag::RBrace) && !self.at_end()
            invariant
                self.advanced(old(self)),
                self.pos > old(self).pos,
                body == old(self).pos + 3,
                t == kinds(old(self).tokens@),
                ts == old(self).tokens@,
                i == old(self).pos,
                0 <= read,
                forall|e: int, pieces: Seq<Option<RuleItem>>, cuts2: Seq<int>|
                    #[trigger] body_with_strays(t, body, e, pieces, cuts2) ==> {
                        &&& read <= pieces.len()
                        &&& self.pos == cuts2[read]
                        &&& same_fields(items, fields_in(pieces.take(read)))
                        &&& said(self.diags@) == said(old(self).diags@) + strays_said(
                            ts,
                            pieces.take(read),
                            cuts2,
                        )
                    },
                ident_at(kinds(old(self).tokens@), old(self).pos + 1, name.text@),
                name.span == ts[i + 1].span,
                tag_at(kinds(old(self).tokens@), old(self).pos + 2) == Tag::LBrace,
                priority is Some <==> picked(items, Field::Priority).len() > 0,
                priority is Some ==> picked(items, Field::Priority).last() == RuleItem::Priority(
                    priority->0,
                ),
                category is Some <==> picked(items, Field::Category).len() > 0,
                category is Some ==> picked(items, Field::Category).last() == RuleItem::Category(
                    category->0,
                    exclusive,
                ),
                action is Some <==> picked(items, Field::Do).len() > 0,
                action is Some ==> picked(items, Field::Do).last() == RuleItem::Do(action->0),
                because is Some <==> picked(items, Field::Because).len() > 0,
                because is Some ==> picked(items, Field::Because).last() == RuleItem::Because(
                    because->0,
                ),
                picked(items, Field::Let).len() == lets@.len(),
                forall|m: int|
                    0 <= m < lets@.len() ==> #[trigger] picked(items, Field::Let)[m] == RuleItem::Let(
                        lets@[m],
                    ),
                picked(items, Field::Require).len() == conditions@.len(),
                forall|m: int|
                    0 <= m < conditions@.len() ==> #[trigger] picked(items, Field::Require)[m]
                        == RuleItem::Require(conditions@[m]),
                self.clean(old(self)) ==> {
                    &&& spells_rule_items(kinds(self.tokens@), body, self.pos as int, items, cuts)
                    &&& forall|f: Field| once(f) ==> #[trigger] picked(items, f).len() <= 1
                },
            decreases self.remaining(),
        {
            let ghost at = self.pos as int;
            let ghost done = items;
            let ghost d0 = self.diags@;
            let kw = self.peek_span();
            match self.peek_tag() {
                Tag::Priority => {
                    self.bump();
                    let ghost mid = *self;
                    let e = self.expr();
                    let ghost d1 = self.diags@;
                    let dup = priority.is_some();
                    if dup {
                        self.error(kw, String::from_str("duplicate `priority`"));
                    }
                    proof {
                        let it = RuleItem::Priority(e);
                        assert(said(self.diags@) =~= said(d1) + if dup {
                            one(duplicate_text(Field::Priority), kw)
                        } else {
                            Seq::<(Seq<char>, Span)>::empty()
                        });
                        lemma_picked_push(items, it);
                        if self.clean(old(self)) {
                            self.lemma_item_pushed(body, at, items, cuts, it);
                        }
                        items = items.push(it);
                        cuts = cuts.push(self.pos as int);
                        assert forall|j: int, x: RuleItem|
                            #[trigger] spells_rule_item(t, at, j, x) && field_of(x) == field_of(it) && tag_level(
                                tag_at(t, j),
                            ) == -1 && tag_at(t, j) != Tag::LParen implies j == self.pos && item_tree(x)
                            == item_tree(it) && said(self.diags@) == said(d0) + dup_said(done, it, ts[at].span) by {
                            if let RuleItem::Priority(x2) = x {
                                assert(spells(kinds(mid.tokens@), 0, mid.pos as int, j, x2));
                                assert(tree(e) == tree(x2));
                                assert(d1 =~= d0);
                            }
                        }
                        lemma_field_step(t, ts, body, read, at, done, it, said(old(self).diags@), said(d0), said(self.diags@), self.pos as int);
                    }
                    priority = Some(e);
                },
                Tag::Category => {
                    self.bump();
                    if let Some(n) = self.name() {
                        let ghost d1 = self.diags@;
                        let dup = category.is_some();
                        if dup {
                            self.error(kw, String::from_str("duplicate `category`"));
                        }
                        let ghost d2 = self.diags@;
                        let ex = self.eat(Tag::Exclusive);
                        proof {
                            let it = RuleItem::Category(n, ex);
                            assert(said(self.diags@) =~= said(d1) + if dup {
                                one(duplicate_text(Field::Category), kw)
                            } else {
                                Seq::<(Seq<char>, Span)>::empty()
                            });
                            lemma_picked_push(items, it);
                            if self.clean(old(self)) {
                                self.lemma_item_pushed(body, at, items, cuts, it);
                            }
                            items = items.push(it);
                            cuts = cuts.push(self.pos as int);
                            assert forall|j: int, x: RuleItem|
                                #[trigger] spells_rule_item(t, at, j, x) && field_of(x) == field_of(it) && tag_level(
                                    tag_at(t, j),
                                ) == -1 && tag_at(t, j) != Tag::LParen implies j == self.pos && item_tree(x)
                                == item_tree(it) && said(self.diags@) == said(d0) + dup_said(done, it, ts[at].span) by {
                                if let RuleItem::Category(n2, ex2) = x {
                                    assert(name_tree(n) == name_tree(n2));
                                    assert(ex == ex2);
                                    assert(d1 =~= d0);
                                }
                            }
                            lemma_field_step(t, ts, body, read, at, done, it, said(old(self).diags@), said(d0), said(self.diags@), self.pos as int);
                        }
                        category = Some(n);
                        exclusive = ex;
                    } else {
                        proof {
                            assert forall|e2: int, pieces: Seq<Option<RuleItem>>, cuts2: Seq<int>|
                                #[trigger] body_with_strays(t, body, e2, pieces, cuts2) implies false by {
                                lemma_stray_next(t, body, e2, pieces, cuts2, read);
                            }
                        }
                    }
                },
                Tag::Do => {
                    self.bump();
                    let ghost mid = *self;
                    if let Some(a) = self.action() {
                        let ghost d1 = self.diags@;
                        let dup = action.is_some();
                        if dup {
                            self.error(kw, String::from_str("duplicate `do`"));
                        }
                        proof {
                            let it = RuleItem::Do(a);
                            assert(said(self.diags@) =~= said(d1) + if dup {
                                one(duplicate_text(Field::Do), kw)
                            } else {
                                Seq::<(Seq<char>, Span)>::empty()
                            });
                            lemma_picked_push(items, it);
                            if self.clean(old(self)) {
                                self.lemma_item_pushed(body, at, items, cuts, it);
                            }
                            items = items.push(it);
                            cuts = cuts.push(self.pos as int);
                            assert forall|j: int, x: RuleItem|
                                #[trigger] spells_rule_item(t, at, j, x) && field_of(x) == field_of(it) && tag_level(
                                    tag_at(t, j),
                                ) == -1 && tag_at(t, j) != Tag::LParen implies j == self.pos && item_tree(x)
                                == item_tree(it) && said(self.diags@) == said(d0) + dup_said(done, it, ts[at].span) by {
                                if let RuleItem::Do(a2) = x {
                                    assert(spells_action(kinds(mid.tokens@), mid.pos as int, j, a2));
                                    assert(d1 =~= d0);
                                }
                            }
                            lemma_field_step(t, ts, body, read, at, done, it, said(old(self).diags@), said(d0), said(self.diags@), self.pos as int);
                        }
                        action = Some(a);
                    } else {
                        proof {
                            assert forall|e2: int, pieces: Seq<Option<RuleItem>>, cuts2: Seq<int>|
                                #[trigger] body_with_strays(t, body, e2, pieces, cuts2) implies false by {
                                lemma_stray_next(t, body, e2, pieces, cuts2, read);
                                if let Some(RuleItem::Do(a2)) = pieces[read] {
                                    assert(spells_action(kinds(mid.tokens@), mid.pos as int, cuts2[read + 1], a2));
                                }
                            }
                        }
                    }
                },
                Tag::Because => {
                    self.bump();
                    if let Some(text) = self.string_literal() {
                        let ghost d1 = self.diags@;
                        let dup = because.is_some();
                        if dup {
                            self.error(kw, String::from_str("duplicate `because`"));
                        }
                        proof {
                            let it = RuleItem::Because(text);
                            assert(said(self.diags@) =~= said(d1) + if dup {
                                one(duplicate_text(Field::Because), kw)
                            } else {
                                Seq::<(Seq<char>, Span)>::empty()
                            });
                            lemma_picked_push(items, it);
                            if self.clean(old(self)) {
                                self.lemma_item_pushed(body, at, items, cuts, it);
                            }
                            items = items.push(it);
                            cuts = cuts.push(self.pos as int);
                            assert forall|j: int, x: RuleItem|
                                #[trigger] spells_rule_item(t, at, j, x) && field_of(x) == field_of(it) && tag_level(
                                    tag_at(t, j),
                                ) == -1 && tag_at(t, j) != Tag::LParen implies j == self.pos && item_tree(x)
                                == item_tree(it) && said(self.diags@) == said(d0) + dup_said(done, it, ts[at].span) by {
                                if let RuleItem::Because(text2) = x {
                                    assert(t[at + 1].0 == kind_view(self.tokens@[at + 1].kind));
                                    assert(text2@ == text@);
                                    assert(d1 =~= d0);
                                }
                            }
                            lemma_field_step(t, ts, body, read, at, done, it, said(old(self).diags@), said(d0), said(self.diags@), self.pos as int);
                        }
                        because = Some(text);
                    } else {
                        proof {
                            assert forall|e2: int, pieces: Seq<Option<RuleItem>>, cuts2: Seq<int>|
                                #[trigger] body_with_strays(t, body, e2, pieces, cuts2) implies false by {
                                lemma_stray_next(t, body, e2, pieces, cuts2, read);
                            }
                        }
                    }
                },
                Tag::Let => {
                    self.bump();
                    if let Some(n) = self.name() {
                        self.expect(Tag::Eq, "expected `=` after the binding name");
                        let ghost mid = *self;
                        let value = self.expr();
                        let binding = Let { span: kw.to(value.span), name: n, value };
                        proof {
                            let it = RuleItem::Let(binding);
                            lemma_picked_push(items, it);
                            if self.clean(old(self)) {
                                self.lemma_item_pushed(body, at, items, cuts, it);
                            }
                            items = items.push(it);
                            cuts = cuts.push(self.pos as int);
                            assert forall|j: int, x: RuleItem|
                                #[trigger] spells_rule_item(t, at, j, x) && field_of(x) == field_of(it) && tag_level(
                                    tag_at(t, j),
                                ) == -1 && tag_at(t, j) != Tag::LParen implies j == self.pos && item_tree(x)
                                == item_tree(it) && said(self.diags@) == said(d0) + dup_said(done, it, ts[at].span) by {
                                if let RuleItem::Let(l2) = x {
                                    assert(spells(kinds(mid.tokens@), 0, mid.pos as int, j, l2.value));
                                    assert(tree(binding.value) == tree(l2.value));
                                    assert(name_tree(binding.name) == name_tree(l2.name));
                                    assert(self.diags@ =~= d0);
                                    assert(said(self.diags@) =~= said(d0) + Seq::<(Seq<char>, Span)>::empty());
                                }
                            }
                            lemma_field_step(t, ts, body, read, at, done, it, said(old(self).diags@), said(d0), said(self.diags@), self.pos as int);
                        }
                        lets.push(binding);
                    } else {
                        proof {
                            assert forall|e2: int, pieces: Seq<Option<RuleItem>>, cuts2: Seq<int>|
                                #[trigger] body_with_strays(t, body, e2, pieces, cuts2) implies false by {
                                lemma_stray_next(t, body, e2, pieces, cuts2, read);
                            }
                        }
                    }
                },
                Tag::Require => {
                    self.bump();
                    let ghost mid = *self;
                    let e = self.expr();
                    proof {
                        let it = RuleItem::Require(e);
                        lemma_picked_push(items, it);
                        if self.clean(old(self)) {
                            self.lemma_item_pushed(body, at, items, cuts, it);
                        }
                        items = items.push(it);
                        cuts = cuts.push(self.pos as int);
                        assert forall|j: int, x: RuleItem|
                            #[trigger] spells_rule_item(t, at, j, x) && field_of(x) == field_of(it) && tag_level(
                                tag_at(t, j),
                            ) == -1 && tag_at(t, j) != Tag::LParen implies j == self.pos && item_tree(x)
                            == item_tree(it) && said(self.diags@) == said(d0) + dup_said(done, it, ts[at].span) by {
                            if let RuleItem::Require(x2) = x {
                                assert(spells(kinds(mid.tokens@), 0, mid.pos as int, j, x2));
                                assert(tree(e) == tree(x2));
                                assert(self.diags@ =~= d0);
                                assert(said(self.diags@) =~= said(d0) + Seq::<(Seq<char>, Span)>::empty());
                            }
                        }
                        lemma_field_step(t, ts, body, read, at, done, it, said(old(self).diags@), said(d0), said(self.diags@), self.pos as int);
                    }
                    conditions.push(e);
                },
                _ => {
                    self.error(kw, String::from_str("expected a rule field or `require`"));
                    self.bump();
                    proof {
                        assert forall|e2: int, pieces: Seq<Option<RuleItem>>, cuts2: Seq<int>|
                            #[trigger] body_with_strays(t, body, e2, pieces, cuts2) implies {
                                &&& read + 1 <= pieces.len()
                                &&& self.pos == cuts2[read + 1]
                                &&& same_fields(items, fields_in(pieces.take(read + 1)))
                                &&& said(self.diags@) == said(old(self).diags@) + strays_said(
                                    ts,
                                    pieces.take(read + 1),
                                    cuts2,
                                )
                            } by {
                            lemma_stray_next(t, body, e2, pieces, cuts2, read);
                            assert(pieces[read] is None);
                            lemma_stray_piece(
                                ts,
                                pieces,
                                cuts2,
                                read,
                                done,
                                said(old(self).diags@),
                                said(d0),
                                said(self.diags@),
                            );
                        }
                    }
                },
            }
            proof {
                read = read + 1;
            }
        }
        proof {
            assert forall|e2: int, pieces: Seq<Option<RuleItem>>, cuts2: Seq<int>|
                #[trigger] body_with_strays(t, body, e2, pieces, cuts2) implies {
                    &&& self.pos == e2
                    &&& tag_at(t, e2) == Tag::RBrace
                    &&& same_fields(items, fields_in(pieces))
                    &&& said(self.diags@) == said(old(self).diags@) + strays_said(ts, pieces, cuts2)
                    &&& forall|f: Field| #[trigger] picked(items, f).len() == picked(fields_in(pieces), f).len()
                } by {
                lemma_stray_end(t, body, e2, pieces, cuts2, read);
                assert forall|f: Field| #[trigger] picked(items, f).len() == picked(fields_in(pieces), f).len() by {
                    lemma_same_fields_picked(items, fields_in(pieces), f);
                }
            }
            assert forall|j: int, rule: Rule| #[trigger] spells_rule(t, i, j, rule) implies {
                &&& self.clean(old(self))
                &&& self.pos == j - 1
                &&& priority is Some
                &&& category is Some
                &&& action is Some
                &&& exists|items2: Seq<RuleItem>, cuts2: Seq<int>|
                    #[trigger] spells_rule_items(t, i + 3, j - 1, items2, cuts2) && rule_built(items2, rule)
                        && same_fields(items, items2)
            } by {
                let (items2, cuts2) = choose|items2: Seq<RuleItem>, cuts2: Seq<int>|
                    #[trigger] spells_rule_items(t, i + 3, j - 1, items2, cuts2) && rule_built(
                        items2,
                        rule,
                    );
                assert(rule_target(t, body, j - 1, items2, cuts2));
                let pieces = items2.map_values(|x: RuleItem| Some(x));
                lemma_target_lenient(t, ts, body, j - 1, items2, cuts2);
                assert(body_with_strays(t, body, j - 1, pieces, cuts2));
                assert(said(self.diags@) =~= said(old(self).diags@));
                assert(said(self.diags@).len() == self.diags@.len());
                assert(picked(items2, Field::Priority).len() == 1);
                assert(picked(items2, Field::Category).len() == 1);
                assert(picked(items2, Field::Do).len() == 1);
                assert(picked(items, Field::Priority).len() == picked(items2, Field::Priority).len());
                assert(picked(items, Field::Category).len() == picked(items2, Field::Category).len());
                assert(picked(items, Field::Do).len() == picked(items2, Field::Do).len());
            }
        }
        let ghost at_close = self.pos;
        let ghost d_close = self.diags@;

        let close = self.peek_span();
        if !self.eat(Tag::RBrace) {
            proof {
                assert(tag_at(t, self.pos as int) == tag_of(self.tokens@[self.pos as int].kind));
            }
            self.error(close, String::from_str("expected `}` to close the rule"));
            return None;
        }

        // Bad input rather than a compiler bug, so these report.
        let priority = match priority {
            Some(p) => p,
            None => {
                self.error(name.span, String::from_str("rule has no `priority`"));
                return None;
            },
        };
        let category = match category {
            Some(c) => c,
            None => {
                self.error(name.span, String::from_str("rule has no `category`"));
                return None;
            },
        };
        let action = match action {
            Some(a) => a,
            None => {
                self.error(name.span, String::from_str("rule has no `do`"));
                return None;
            },
        };

        let r = Rule {
            name,
            priority,
            category,
            exclusive,
            action,
            because,
            lets,
            requires: conditions,
            span: start.to(close),
        };
        proof {
            if self.clean(old(self)) {
                assert(picked(items, Field::Priority) =~= seq![RuleItem::Priority(r.priority)]);
                assert(picked(items, Field::Category) =~= seq![RuleItem::Category(r.category, r.exclusive)]);
                assert(picked(items, Field::Do) =~= seq![RuleItem::Do(r.action)]);
                if r.because is Some {
                    assert(picked(items, Field::Because) =~= seq![RuleItem::Because(r.because->0)]);
                } else {
                    assert(picked(items, Field::Because) =~= Seq::<RuleItem>::empty());
                }
                assert(spells_rule_items(kinds(self.tokens@), body, self.pos - 1, items, cuts));
                assert(rule_built(items, r));
            }
            assert forall|j: int, rule2: Rule| #[trigger] spells_rule(t, i, j, rule2) implies rule_tree(r)
                == rule_tree(rule2) by {
                let (items2, cuts2) = choose|items2: Seq<RuleItem>, cuts2: Seq<int>|
                    #[trigger] spells_rule_items(t, i + 3, j - 1, items2, cuts2) && rule_built(items2, rule2)
                        && same_fields(items, items2);
                lemma_same_fields_picked(items, items2, Field::Priority);
                lemma_same_fields_picked(items, items2, Field::Category);
                lemma_same_fields_picked(items, items2, Field::Do);
                lemma_same_fields_picked(items, items2, Field::Because);
                lemma_same_fields_picked(items, items2, Field::Let);
                lemma_same_fields_picked(items, items2, Field::Require);
                assert(item_tree(picked(items, Field::Priority)[0]) == item_tree(
                    picked(items2, Field::Priority)[0],
                ));
                assert(item_tree(picked(items, Field::Category)[0]) == item_tree(
                    picked(items2, Field::Category)[0],
                ));
                assert(item_tree(picked(items, Field::Do)[0]) == item_tree(picked(items2, Field::Do)[0]));
                if picked(items, Field::Because).len() > 0 {
                    assert(item_tree(picked(items, Field::Because)[0]) == item_tree(
                        picked(items2, Field::Because)[0],
                    ));
                }
                assert forall|m: int| 0 <= m < r.lets@.len() implies #[trigger] let_tree(r.lets@[m])
                    == let_tree(rule2.lets@[m]) by {
                    assert(item_tree(picked(items, Field::Let)[m]) == item_tree(
                        picked(items2, Field::Let)[m],
                    ));
                }
                assert(r.lets@.map_values(|l: Let| let_tree(l)) =~= rule2.lets@.map_values(
                    |l: Let| let_tree(l),
                ));
                lemma_trees(r.requires@);
                lemma_trees(rule2.requires@);
                assert forall|m: int| 0 <= m < r.requires@.len() implies #[trigger] tree(
                    r.requires@[m],
                ) == tree(rule2.requires@[m]) by {
                    assert(item_tree(picked(items, Field::Require)[m]) == item_tree(
                        picked(items2, Field::Require)[m],
                    ));
                }
                assert(trees(r.requires@) =~= trees(rule2.requires@));
            }
            assert forall|e2: int, pieces: Seq<Option<RuleItem>>, cuts2: Seq<int>|
                #[trigger] body_with_strays(t, body, e2, pieces, cuts2) implies rule_kept(
                fields_in(pieces),
                r,
            ) && said(self.diags@) == said(old(self).diags@) + strays_said(ts, pieces, cuts2)
                + missing_said(fields_in(pieces), ts[i + 1].span) && covers(t, i, e2 + 1, r.span) by {
                let fs = fields_in(pieces);
                assert(said(self.diags@) =~= said(old(self).diags@) + strays_said(ts, pieces, cuts2)
                    + missing_said(fs, ts[i + 1].span));
                lemma_same_fields_picked(items, fs, Field::Priority);
                lemma_same_fields_picked(items, fs, Field::Category);
                lemma_same_fields_picked(items, fs, Field::Do);
                lemma_same_fields_picked(items, fs, Field::Because);
                lemma_same_fields_picked(items, fs, Field::Let);
                lemma_same_fields_picked(items, fs, Field::Require);
                assert forall|m: int| 0 <= m < r.lets@.len() implies item_tree(
                    #[trigger] picked(fs, Field::Let)[m],
                ) == item_tree(RuleItem::Let(r.lets@[m])) by {
                    assert(item_tree(picked(items, Field::Let)[m]) == item_tree(picked(fs, Field::Let)[m]));
                }
                assert forall|m: int| 0 <= m < r.requires@.len() implies item_tree(
                    #[trigger] picked(fs, Field::Require)[m],
                ) == item_tree(RuleItem::Require(r.requires@[m])) by {
                    assert(item_tree(picked(items, Field::Require)[m]) == item_tree(
                        picked(fs, Field::Require)[m],
                    ));
                }
            }
        }
        Some(r)
    }

    /// What pushing one more field keeps: the fields written so far, and
    /// the fields of each kind.
    proof fn lemma_item_pushed(
        &self,
        body: int,
        at: int,
        items: Seq<RuleItem>,
        cuts: Seq<int>,
        it: RuleItem,
    )
        requires
            spells_rule_items(kinds(self.tokens@), body, at, items, cuts),
            spells_rule_item(kinds(self.tokens@), at, self.pos as int, it),
        ensures
            spells_rule_items(
                kinds(self.tokens@),
                body,
                self.pos as int,
                items.push(it),
                cuts.push(self.pos as int),
            ),
            forall|f: Field| #[trigger]
                picked(items.push(it), f) == if field_of(it) == f {
                    picked(items, f).push(it)
                } else {
                    picked(items, f)
                },
    {
        let items2 = items.push(it);
        let cuts2 = cuts.push(self.pos as int);
        assert(items2.drop_last() =~= items);
        assert forall|m: int| 0 <= m < items2.len() implies #[trigger] spells_rule_item(
            kinds(self.tokens@),
            cuts2[m],
            cuts2[m + 1],
            items2[m],
        ) by {
            if m < items.len() {
                assert(items2[m] == items[m]);
                assert(cuts2[m] == cuts[m]);
                assert(cuts2[m + 1] == cuts[m + 1]);
            }
        }
    }

    // ---- expressions ----
    //
    // Each level parses the one below it, then loops while it sees an operator
    // at its own level. The measure is the tokens left, then the level: a level
    // may call the next tighter one without consuming anything, and only a
    // parenthesis goes back to the loosest, after consuming the `(`.

    fn expr(&mut self) -> (e: Expr)
        requires
            old(self).wf(),
        ensures
            final(self).advanced(old(self)),
            final(self).clean(old(self)) ==> spells(
                kinds(old(self).tokens@),
                0,
                old(self).pos as int,
                final(self).pos as int,
                e,
            ),
            final(self).clean(old(self)) ==> covers(
                kinds(old(self).tokens@),
                old(self).pos as int,
                final(self).pos as int,
                e.span,
            ),
            final(self).finishes(old(self), 0),
            final(self).settles(old(self), 0, e),
        decreases old(self).remaining(), 8nat,
    {
        self.or_expr()
    }

    fn or_expr(&mut self) -> (e: Expr)
        requires
            old(self).wf(),
        ensures
            final(self).advanced(old(self)),
            final(self).clean(old(self)) ==> spells(
                kinds(old(self).tokens@),
                0,
                old(self).pos as int,
                final(self).pos as int,
                e,
            ),
            final(self).clean(old(self)) ==> covers(
                kinds(old(self).tokens@),
                old(self).pos as int,
                final(self).pos as int,
                e.span,
            ),
            final(self).finishes(old(self), 0),
            final(self).settles(old(self), 0, e),
        decreases old(self).remaining(), 7nat,
    {
        let mut left = self.and_expr();
        proof {
            if self.clean(old(self)) {
                lemma_level_up(kinds(self.tokens@), 0, old(self).pos as int, self.pos as int, left);
            }
            Self::lemma_chain_start(0, *old(self), *self);
            Self::lemma_spine_start(0, *old(self), *self, left);
        }
        while self.at(Tag::Or)
            invariant
                self.advanced(old(self)),
                self.clean(old(self)) ==> spells(
                    kinds(old(self).tokens@),
                    0,
                    old(self).pos as int,
                    self.pos as int,
                    left,
                ),
                self.clean(old(self)) ==> covers(
                    kinds(old(self).tokens@),
                    old(self).pos as int,
                    self.pos as int,
                    left.span,
                ),
                self.tail_left(old(self), 0),
                self.spine(old(self), 0, left),
            decreases self.remaining(),
        {
            let ghost k = self.pos as int;
            let ghost l = left;
            let ghost head = *self;
            self.bump();
            let ghost mid = *self;
            let right = self.and_expr();
            left = binary(BinOp::Or, left, right);
            proof {
                if self.clean(old(self)) {
                    lemma_binary_step(kinds(self.tokens@), 0, old(self).pos as int, k, self.pos as int, l, right, left);
                }
                Self::lemma_chain_step(0, *old(self), head, mid, *self);
                Self::lemma_spine_step(0, *old(self), head, mid, *self, l, right, left);
            }
        }
        proof {
            Self::lemma_chain_end(0, *old(self), *self);
            Self::lemma_spine_end(0, *old(self), *self, left);
        }
        left
    }

    fn and_expr(&mut self) -> (e: Expr)
        requires
            old(self).wf(),
        ensures
            final(self).advanced(old(self)),
            final(self).clean(old(self)) ==> spells(
                kinds(old(self).tokens@),
                1,
                old(self).pos as int,
                final(self).pos as int,
                e,
            ),
            final(self).clean(old(self)) ==> covers(
                kinds(old(self).tokens@),
                old(self).pos as int,
                final(self).pos as int,
                e.span,
            ),
            final(self).finishes(old(self), 1),
            final(self).settles(old(self), 1, e),
        decreases old(self).remaining(), 6nat,
    {
        let mut left = self.comparison_expr();
        proof {
            if self.clean(old(self)) {
                lemma_level_up(kinds(self.tokens@), 1, old(self).pos as int, self.pos as int, left);
            }
            Self::lemma_chain_start(1, *old(self), *self);
            Self::lemma_spine_start(1, *old(self), *self, left);
        }
        while self.at(Tag::And)
            invariant
                self.advanced(old(self)),
                self.clean(old(self)) ==> spells(
                    kinds(old(self).tokens@),
                    1,
                    old(self).pos as int,
                    self.pos as int,
                    left,
                ),
                self.clean(old(self)) ==> covers(
                    kinds(old(self).tokens@),
                    old(self).pos as int,
                    self.pos as int,
                    left.span,
                ),
                self.tail_left(old(self), 1),
                self.spine(old(self), 1, left),
            decreases self.remaining(),
        {
            let ghost k = self.pos as int;
            let ghost l = left;
            let ghost head = *self;
            self.bump();
            let ghost mid = *self;
            let right = self.comparison_expr();
            left = binary(BinOp::And, left, right);
            proof {
                if self.clean(old(self)) {
                    lemma_binary_step(kinds(self.tokens@), 1, old(self).pos as int, k, self.pos as int, l, right, left);
                }
                Self::lemma_chain_step(1, *old(self), head, mid, *self);
                Self::lemma_spine_step(1, *old(self), head, mid, *self, l, right, left);
            }
        }
        proof {
            Self::lemma_chain_end(1, *old(self), *self);
            Self::lemma_spine_end(1, *old(self), *self, left);
        }
        left
    }

    /// One level, so `a < b < c` parses; the checker rejects it.
    fn comparison_expr(&mut self) -> (e: Expr)
        requires
            old(self).wf(),
        ensures
            final(self).advanced(old(self)),
            final(self).clean(old(self)) ==> spells(
                kinds(old(self).tokens@),
                2,
                old(self).pos as int,
                final(self).pos as int,
                e,
            ),
            final(self).clean(old(self)) ==> covers(
                kinds(old(self).tokens@),
                old(self).pos as int,
                final(self).pos as int,
                e.span,
            ),
            final(self).finishes(old(self), 2),
            final(self).settles(old(self), 2, e),
        decreases old(self).remaining(), 5nat,
    {
        let mut left = self.add_expr();
        proof {
            if self.clean(old(self)) {
                lemma_level_up(kinds(self.tokens@), 2, old(self).pos as int, self.pos as int, left);
            }
            Self::lemma_chain_start(2, *old(self), *self);
            Self::lemma_spine_start(2, *old(self), *self, left);
        }
        loop
            invariant
                self.advanced(old(self)),
                self.clean(old(self)) ==> spells(
                    kinds(old(self).tokens@),
                    2,
                    old(self).pos as int,
                    self.pos as int,
                    left,
                ),
                self.clean(old(self)) ==> covers(
                    kinds(old(self).tokens@),
                    old(self).pos as int,
                    self.pos as int,
                    left.span,
                ),
                self.tail_left(old(self), 2),
                self.spine(old(self), 2, left),
            ensures
                self.finishes(old(self), 2),
                self.settles(old(self), 2, left),
                self.advanced(old(self)),
                self.clean(old(self)) ==> spells(
                    kinds(old(self).tokens@),
                    2,
                    old(self).pos as int,
                    self.pos as int,
                    left,
                ),
                self.clean(old(self)) ==> covers(
                    kinds(old(self).tokens@),
                    old(self).pos as int,
                    self.pos as int,
                    left.span,
                ),
            decreases self.remaining(),
        {
            let op = match self.peek_tag() {
                Tag::EqEq => BinOp::Eq,
                Tag::NotEq => BinOp::NotEq,
                Tag::Lt => BinOp::Lt,
                Tag::LtEq => BinOp::LtEq,
                Tag::Gt => BinOp::Gt,
                Tag::GtEq => BinOp::GtEq,
                _ => {
                    proof {
                        Self::lemma_chain_end(2, *old(self), *self);
                        Self::lemma_spine_end(2, *old(self), *self, left);
                    }
                    break;
                },
            };
            let ghost k = self.pos as int;
            let ghost l = left;
            let ghost head = *self;
            self.bump();
            let ghost mid = *self;
            let right = self.add_expr();
            left = binary(op, left, right);
            proof {
                if self.clean(old(self)) {
                    lemma_binary_step(kinds(self.tokens@), 2, old(self).pos as int, k, self.pos as int, l, right, left);
                }
                Self::lemma_chain_step(2, *old(self), head, mid, *self);
                Self::lemma_spine_step(2, *old(self), head, mid, *self, l, right, left);
            }
        }
        left
    }

    fn add_expr(&mut self) -> (e: Expr)
        requires
            old(self).wf(),
        ensures
            final(self).advanced(old(self)),
            final(self).clean(old(self)) ==> spells(
                kinds(old(self).tokens@),
                3,
                old(self).pos as int,
                final(self).pos as int,
                e,
            ),
            final(self).clean(old(self)) ==> covers(
                kinds(old(self).tokens@),
                old(self).pos as int,
                final(self).pos as int,
                e.span,
            ),
            final(self).finishes(old(self), 3),
            final(self).settles(old(self), 3, e),
        decreases old(self).remaining(), 4nat,
    {
        let mut left = self.mul_expr();
        proof {
            if self.clean(old(self)) {
                lemma_level_up(kinds(self.tokens@), 3, old(self).pos as int, self.pos as int, left);
            }
            Self::lemma_chain_start(3, *old(self), *self);
            Self::lemma_spine_start(3, *old(self), *self, left);
        }
        loop
            invariant
                self.advanced(old(self)),
                self.clean(old(self)) ==> spells(
                    kinds(old(self).tokens@),
                    3,
                    old(self).pos as int,
                    self.pos as int,
                    left,
                ),
                self.clean(old(self)) ==> covers(
                    kinds(old(self).tokens@),
                    old(self).pos as int,
                    self.pos as int,
                    left.span,
                ),
                self.tail_left(old(self), 3),
                self.spine(old(self), 3, left),
            ensures
                self.finishes(old(self), 3),
                self.settles(old(self), 3, left),
                self.advanced(old(self)),
                self.clean(old(self)) ==> spells(
                    kinds(old(self).tokens@),
                    3,
                    old(self).pos as int,
                    self.pos as int,
                    left,
                ),
                self.clean(old(self)) ==> covers(
                    kinds(old(self).tokens@),
                    old(self).pos as int,
                    self.pos as int,
                    left.span,
                ),
            decreases self.remaining(),
        {
            let op = match self.peek_tag() {
                Tag::Plus => BinOp::Add,
                Tag::Minus => BinOp::Sub,
                _ => {
                    proof {
                        Self::lemma_chain_end(3, *old(self), *self);
                        Self::lemma_spine_end(3, *old(self), *self, left);
                    }
                    break;
                },
            };
            let ghost k = self.pos as int;
            let ghost l = left;
            let ghost head = *self;
            self.bump();
            let ghost mid = *self;
            let right = self.mul_expr();
            left = binary(op, left, right);
            proof {
                if self.clean(old(self)) {
                    lemma_binary_step(kinds(self.tokens@), 3, old(self).pos as int, k, self.pos as int, l, right, left);
                }
                Self::lemma_chain_step(3, *old(self), head, mid, *self);
                Self::lemma_spine_step(3, *old(self), head, mid, *self, l, right, left);
            }
        }
        left
    }

    fn mul_expr(&mut self) -> (e: Expr)
        requires
            old(self).wf(),
        ensures
            final(self).advanced(old(self)),
            final(self).clean(old(self)) ==> spells(
                kinds(old(self).tokens@),
                4,
                old(self).pos as int,
                final(self).pos as int,
                e,
            ),
            final(self).clean(old(self)) ==> covers(
                kinds(old(self).tokens@),
                old(self).pos as int,
                final(self).pos as int,
                e.span,
            ),
            final(self).finishes(old(self), 4),
            final(self).settles(old(self), 4, e),
        decreases old(self).remaining(), 3nat,
    {
        let mut left = self.unary();
        proof {
            if self.clean(old(self)) {
                lemma_level_up(kinds(self.tokens@), 4, old(self).pos as int, self.pos as int, left);
            }
            Self::lemma_chain_start(4, *old(self), *self);
            Self::lemma_spine_start(4, *old(self), *self, left);
        }
        loop
            invariant
                self.advanced(old(self)),
                self.clean(old(self)) ==> spells(
                    kinds(old(self).tokens@),
                    4,
                    old(self).pos as int,
                    self.pos as int,
                    left,
                ),
                self.clean(old(self)) ==> covers(
                    kinds(old(self).tokens@),
                    old(self).pos as int,
                    self.pos as int,
                    left.span,
                ),
                self.tail_left(old(self), 4),
                self.spine(old(self), 4, left),
            ensures
                self.finishes(old(self), 4),
                self.settles(old(self), 4, left),
                self.advanced(old(self)),
                self.clean(old(self)) ==> spells(
                    kinds(old(self).tokens@),
                    4,
                    old(self).pos as int,
                    self.pos as int,
                    left,
                ),
                self.clean(old(self)) ==> covers(
                    kinds(old(self).tokens@),
                    old(self).pos as int,
                    self.pos as int,
                    left.span,
                ),
            decreases self.remaining(),
        {
            let op = match self.peek_tag() {
                Tag::Asterisk => BinOp::Mul,
                Tag::Slash => BinOp::Div,
                _ => {
                    proof {
                        Self::lemma_chain_end(4, *old(self), *self);
                        Self::lemma_spine_end(4, *old(self), *self, left);
                    }
                    break;
                },
            };
            let ghost k = self.pos as int;
            let ghost l = left;
            let ghost head = *self;
            self.bump();
            let ghost mid = *self;
            let right = self.unary();
            left = binary(op, left, right);
            proof {
                if self.clean(old(self)) {
                    lemma_binary_step(kinds(self.tokens@), 4, old(self).pos as int, k, self.pos as int, l, right, left);
                }
                Self::lemma_chain_step(4, *old(self), head, mid, *self);
                Self::lemma_spine_step(4, *old(self), head, mid, *self, l, right, left);
            }
        }
        left
    }

    /// Right-recursive so `not not x` nests.
    fn unary(&mut self) -> (e: Expr)
        requires
            old(self).wf(),
        ensures
            final(self).advanced(old(self)),
            final(self).clean(old(self)) ==> spells(
                kinds(old(self).tokens@),
                5,
                old(self).pos as int,
                final(self).pos as int,
                e,
            ),
            final(self).clean(old(self)) ==> covers(
                kinds(old(self).tokens@),
                old(self).pos as int,
                final(self).pos as int,
                e.span,
            ),
            final(self).finishes(old(self), 5),
            final(self).settles(old(self), 5, e),
        decreases old(self).remaining(), 2nat,
    {
        let start = self.peek_span();
        let ghost t = kinds(self.tokens@);
        let ghost i = self.pos as int;
        let op = match self.peek_tag() {
            Tag::Not => UnOp::Not,
            Tag::Minus => UnOp::Neg,
            Tag::Exists => UnOp::Exists,
            _ => {
                let e = self.primary();
                proof {
                    assert forall|j: int, x: Expr|
                        #[trigger] spells(t, 5, i, j, x) && !continues(5, tag_at(t, j)) implies self.clean(
                            old(self),
                        ) && self.pos == j && shape(e) == shape(x) by {
                        assert(spells(t, 6, i, j, x));
                    }
                }
                return e;
            },
        };
        self.bump();
        let operand = self.unary();
        let e = Expr { span: start.to(operand.span), kind: ExprKind::Unary(op, Box::new(operand)) };
        proof {
            if self.clean(old(self)) {
                assert(spells(kinds(self.tokens@), 5, old(self).pos + 1, self.pos as int, operand));
            }
            assert forall|j: int, x: Expr|
                #[trigger] spells(t, 5, i, j, x) && !continues(5, tag_at(t, j)) implies self.clean(
                    old(self),
                ) && self.pos == j by {
                if let ExprKind::Unary(op2, y) = x.kind {
                    assert(!spells(t, 6, i, j, x));
                    assert(spells(t, 5, i + 1, j, *y));
                    assert(!continues(5, tag_at(t, j)));
                } else {
                    assert(spells(t, 6, i, j, x));
                }
            }
            assert forall|j: int, x: Expr|
                #[trigger] spells(t, 5, i, j, x) && !continues(5, tag_at(t, j)) implies shape(e) == shape(x) by {
                if let ExprKind::Unary(op2, y) = x.kind {
                    assert(!spells(t, 6, i, j, x));
                    assert(spells(kinds(self.tokens@), 5, old(self).pos + 1, j, *y));
                    assert(op2 == op);
                    assert(tree(operand) == tree(*y));
                } else {
                    assert(spells(t, 6, i, j, x));
                }
            }
        }
        e
    }

    /// Where the ladder bottoms out. A parenthesised expression restarts it from
    /// the loosest level, which is why parentheses override precedence.
    fn primary(&mut self) -> (e: Expr)
        requires
            old(self).wf(),
        ensures
            final(self).advanced(old(self)),
            final(self).clean(old(self)) ==> spells(
                kinds(old(self).tokens@),
                6,
                old(self).pos as int,
                final(self).pos as int,
                e,
            ),
            final(self).clean(old(self)) ==> covers(
                kinds(old(self).tokens@),
                old(self).pos as int,
                final(self).pos as int,
                e.span,
            ),
            final(self).finishes(old(self), 6),
            final(self).settles(old(self), 6, e),
        decreases old(self).remaining(), 1nat,
    {
        let span = self.peek_span();
        let tokens = self.tokens;
        match &tokens[self.pos].kind {
            TokenKind::Number(n) => {
                let n = *n;
                self.bump();
                let e = Expr { kind: ExprKind::Int(n), span };
                proof {
                    let t = kinds(old(self).tokens@);
                    let i = old(self).pos as int;
                    assert(t[i].0 == TokenView::Number(n as int));
                    assert forall|j: int, x: Expr|
                        #[trigger] spells(t, 6, i, j, x) && !continues(6, tag_at(t, j)) implies shape(e)
                            == shape(x) by {
                        assert(tag_at(t, i) == Tag::Number);
                    }
                }
                e
            },
            TokenKind::Float(f) => {
                let f = f.clone();
                self.bump();
                let e = Expr { kind: ExprKind::Float(f), span };
                proof {
                    let t = kinds(old(self).tokens@);
                    let i = old(self).pos as int;
                    assert(t[i].0 == TokenView::Float(f@));
                    assert forall|j: int, x: Expr|
                        #[trigger] spells(t, 6, i, j, x) && !continues(6, tag_at(t, j)) implies shape(e)
                            == shape(x) by {
                        assert(tag_at(t, i) == Tag::Float);
                    }
                }
                e
            },
            TokenKind::LParen => {
                self.bump();
                let ghost mid = *self;
                let inner = self.expr();
                proof {
                    let t = kinds(old(self).tokens@);
                    let i = old(self).pos as int;
                    assert forall|j: int, x: Expr| #[trigger] spells(t, 6, i, j, x) implies self.clean(
                        old(self),
                    ) && self.pos == j - 1 && tag_at(t, j - 1) == Tag::RParen by {
                        assert(spells(t, 0, i + 1, j - 1, x));
                        assert(!continues(0, tag_at(t, j - 1)));
                        assert(spells(kinds(mid.tokens@), 0, mid.pos as int, j - 1, x));
                    }
                }
                let close = self.peek_span();
                if !self.eat(Tag::RParen) {
                    self.error(close, String::from_str("expected `)`"));
                    return error_expr(span.to(close));
                }
                let ghost first = inner;
                let e = Expr { kind: inner.kind, span: span.to(close) };
                proof {
                    let t = kinds(old(self).tokens@);
                    let i = old(self).pos as int;
                    assert forall|j: int, x: Expr|
                        #[trigger] spells(t, 6, i, j, x) && !continues(6, tag_at(t, j)) implies self.clean(
                            old(self),
                        ) && self.pos == j by {
                        assert(self.pos - 1 == j - 1);
                    }
                    assert forall|j: int, x: Expr|
                        #[trigger] spells(t, 6, i, j, x) && !continues(6, tag_at(t, j)) implies shape(e)
                            == shape(x) by {
                        assert(spells(t, 0, i + 1, j - 1, x));
                        assert(!continues(0, tag_at(t, j - 1)));
                        assert(spells(kinds(mid.tokens@), 0, mid.pos as int, j - 1, x));
                        assert(shape(first) == shape(x));
                    }
                    if self.clean(old(self)) {
                        lemma_spells_kind(
                            kinds(self.tokens@),
                            0,
                            old(self).pos + 1,
                            self.pos - 1,
                            first,
                            e,
                        );
                    }
                }
                e
            },
            TokenKind::Identifier(_) => self.name_or_call(),
            _ => {
                self.error(span, String::from_str("expected an expression"));
                // Progress, so a bad token cannot stall a loop.
                self.bump();
                error_expr(span)
            },
        }
    }

    /// A bare name, or a call if a `(` follows. Called at an identifier.
    fn name_or_call(&mut self) -> (e: Expr)
        requires
            old(self).wf(),
            tag_of(old(self).tokens@[old(self).pos as int].kind) == Tag::Identifier,
        ensures
            final(self).advanced(old(self)),
            final(self).clean(old(self)) ==> spells(
                kinds(old(self).tokens@),
                6,
                old(self).pos as int,
                final(self).pos as int,
                e,
            ),
            final(self).clean(old(self)) ==> covers(
                kinds(old(self).tokens@),
                old(self).pos as int,
                final(self).pos as int,
                e.span,
            ),
            final(self).finishes(old(self), 6),
            final(self).settles(old(self), 6, e),
        decreases old(self).remaining(), 0nat,
    {
        let name = match self.name() {
            Some(n) => n,
            None => {
                let span = self.peek_span();
                return error_expr(span);
            },
        };
        if !self.at(Tag::LParen) {
            let e = Expr { span: name.span, kind: ExprKind::Ident(name) };
            proof {
                let t = kinds(old(self).tokens@);
                let i = old(self).pos as int;
                assert forall|j: int, x: Expr|
                    #[trigger] spells(t, 6, i, j, x) && !continues(6, tag_at(t, j)) implies shape(e)
                        == shape(x) by {
                    if let ExprKind::Ident(n2) = x.kind {
                        assert(n2.text@ == name.text@);
                        assert(n2.span == name.span);
                    }
                }
            }
            return e;
        }
        self.bump();
        let ghost mid = *self;
        let args = self.arg_list();
        proof {
            let t = kinds(old(self).tokens@);
            let i = old(self).pos as int;
            assert forall|j: int, x: Expr| #[trigger] spells(t, 6, i, j, x) implies self.clean(
                old(self),
            ) && self.pos == j - 1 && tag_at(t, j - 1) == Tag::RParen by {
                if let ExprKind::Call(n2, a2) = x.kind {
                    assert(spells_args(t, i + 2, j - 1, a2@));
                    assert(spells_args(kinds(mid.tokens@), mid.pos as int, j - 1, a2@));
                }
            }
        }
        let close = self.peek_span();
        let start = name.span;
        if !self.eat(Tag::RParen) {
            self.error(close, String::from_str("expected `)` to close the argument list"));
            return error_expr(start.to(close));
        }
        let e = Expr { span: start.to(close), kind: ExprKind::Call(name, args) };
        proof {
            if self.clean(old(self)) {
                assert(spells_args(kinds(self.tokens@), old(self).pos + 2, self.pos - 1, args@));
            }
            let t = kinds(old(self).tokens@);
            let i = old(self).pos as int;
            assert forall|j: int, x: Expr|
                #[trigger] spells(t, 6, i, j, x) && !continues(6, tag_at(t, j)) implies self.clean(
                    old(self),
                ) && self.pos == j by {
                assert(self.pos - 1 == j - 1);
            }
            assert forall|j: int, x: Expr|
                #[trigger] spells(t, 6, i, j, x) && !continues(6, tag_at(t, j)) implies shape(e)
                    == shape(x) by {
                if let ExprKind::Call(n2, a2) = x.kind {
                    assert(spells_args(kinds(mid.tokens@), mid.pos as int, j - 1, a2@));
                    assert(trees(args@) == trees(a2@));
                    assert(n2.text@ == name.text@);
                    assert(n2.span == name.span);
                }
            }
        }
        e
    }

    /// Comma-separated expressions up to, not including, a `)`. A trailing
    /// comma ends the list rather than demanding another argument.
    #[verifier::rlimit(60)]
    fn arg_list(&mut self) -> (args: Vec<Expr>)
        requires
            old(self).wf(),
        ensures
            final(self).advanced(old(self)),
            final(self).clean(old(self)) ==> spells_args(
                kinds(old(self).tokens@),
                old(self).pos as int,
                final(self).pos as int,
                args@,
            ),
            forall|j: int, a: Seq<Expr>|
                #[trigger] spells_args(kinds(old(self).tokens@), old(self).pos as int, j, a) && tag_at(
                    kinds(old(self).tokens@),
                    j,
                ) == Tag::RParen ==> final(self).clean(old(self)) && final(self).pos == j && trees(
                    args@,
                ) == trees(a),
        decreases old(self).remaining(), 9nat,
    {
        let ghost t = kinds(self.tokens@);
        let ghost i = self.pos as int;
        let mut args: Vec<Expr> = Vec::new();
        if self.at(Tag::RParen) {
            proof {
                assert forall|j: int, a: Seq<Expr>|
                    #[trigger] spells_args(t, i, j, a) && tag_at(t, j) == Tag::RParen implies self.pos
                        == j && a.len() == 0 by {
                    if a.len() > 0 {
                        lemma_args_front(t, i, j, a);
                        let k = choose|k: int| #[trigger] spells(t, 0, i, k, a[0]) && {
                            ||| a.len() == 1 && k == j
                            ||| a.len() == 1 && k + 1 == j && tag_at(t, k) == Tag::Comma
                            ||| a.len() > 1 && tag_at(t, k) == Tag::Comma && spells_args(
                                t,
                                k + 1,
                                j,
                                a.subrange(1, a.len() as int),
                            )
                        };
                        lemma_first(t, 0, i, k, a[0]);
                    }
                }
            }
            return args;
        }
        proof {
            assert forall|j: int, a: Seq<Expr>|
                #[trigger] spells_args(t, i, j, a) && tag_at(t, j) == Tag::RParen implies a.len() > 0
                    && spells_args(t, i, j, a.subrange(0, a.len() as int)) by {
                assert(a.subrange(0, a.len() as int) =~= a);
            }
        }
        loop
            invariant_except_break
                self.clean(old(self)) ==> {
                    ||| args@.len() == 0 && self.pos == old(self).pos
                    ||| args@.len() > 0 && self.pos > old(self).pos + 1 && tag_at(
                        kinds(self.tokens@),
                        self.pos - 1,
                    ) == Tag::Comma && spells_list(
                        kinds(self.tokens@),
                        old(self).pos as int,
                        self.pos - 1,
                        args@,
                    )
                },
                forall|j: int, a: Seq<Expr>|
                    #[trigger] spells_args(t, i, j, a) && tag_at(t, j) == Tag::RParen
                        ==> self.clean(old(self)) && args@.len() < a.len() && spells_args(
                        t,
                        self.pos as int,
                        j,
                        a.subrange(args@.len() as int, a.len() as int),
                    ) && trees(args@) == trees(a.subrange(0, args@.len() as int)),
            invariant
                self.advanced(old(self)),
                t == kinds(old(self).tokens@),
                i == old(self).pos,
            ensures
                self.clean(old(self)) ==> spells_args(
                    kinds(self.tokens@),
                    old(self).pos as int,
                    self.pos as int,
                    args@,
                ),
                forall|j: int, a: Seq<Expr>|
                    #[trigger] spells_args(t, i, j, a) && tag_at(t, j) == Tag::RParen
                        ==> self.clean(old(self)) && self.pos == j && trees(args@) == trees(a),
            decreases self.remaining(),
        {
            let ghost before = args@;
            let ghost n = before.len() as int;
            let ghost comma = self.pos - 1;
            let ghost p = self.pos as int;
            let ghost head = *self;
            let e = self.expr();
            args.push(e);
            proof {
                if self.clean(old(self)) {
                    assert(before =~= args@.subrange(0, args@.len() - 1));
                    if before.len() > 0 {
                        assert(tag_at(kinds(self.tokens@), comma) == Tag::Comma);
                    }
                    assert(spells_list(kinds(self.tokens@), old(self).pos as int, self.pos as int, args@));
                }
                Self::lemma_arg_read(*old(self), head, *self, i, before, e, args@);
            }
            if !self.eat(Tag::Comma) {
                proof {
                    assert forall|j: int, a: Seq<Expr>|
                        #[trigger] spells_args(t, i, j, a) && tag_at(t, j) == Tag::RParen implies self.clean(
                            old(self),
                        ) && self.pos == j && trees(args@) == trees(a) by {
                        assert(a.subrange(0, a.len() as int) =~= a);
                    }
                }
                break;
            }
            proof {
                assert forall|j: int, a: Seq<Expr>|
                    #[trigger] spells_args(t, i, j, a) && tag_at(t, j) == Tag::RParen implies {
                        ||| n + 1 == a.len() && self.pos == j
                        ||| n + 1 < a.len() && starts_expr(tag_at(t, self.pos as int)) && spells_args(
                            t,
                            self.pos as int,
                            j,
                            a.subrange(n + 1, a.len() as int),
                        )
                    } by {
                    if n + 1 < a.len() {
                        let b = a.subrange(n + 1, a.len() as int);
                        lemma_args_front(t, self.pos as int, j, b);
                        let k = choose|k: int| #[trigger] spells(t, 0, self.pos as int, k, b[0]) && {
                            ||| b.len() == 1 && k == j
                            ||| b.len() == 1 && k + 1 == j && tag_at(t, k) == Tag::Comma
                            ||| b.len() > 1 && tag_at(t, k) == Tag::Comma && spells_args(
                                t,
                                k + 1,
                                j,
                                b.subrange(1, b.len() as int),
                            )
                        };
                        lemma_first(t, 0, self.pos as int, k, b[0]);
                    }
                }
            }
            if self.at(Tag::RParen) || self.at_end() {
                proof {
                    assert forall|j: int, a: Seq<Expr>|
                        #[trigger] spells_args(t, i, j, a) && tag_at(t, j) == Tag::RParen implies self.clean(
                            old(self),
                        ) && self.pos == j && trees(args@) == trees(a) by {
                        assert(a.subrange(0, a.len() as int) =~= a);
                    }
                }
                break;
            }
        }
        args
    }

    /// One more argument read: it is the next one the tokens write, and
    /// what follows it is the end of the list, a trailing comma, or a comma
    /// and the rest.
    proof fn lemma_arg_read(
        orig: Parser<'a>,
        head: Parser<'a>,
        after: Parser<'a>,
        i: int,
        before: Seq<Expr>,
        e: Expr,
        args: Seq<Expr>,
    )
        requires
            head.tokens@ == orig.tokens@,
            after.tokens@ == orig.tokens@,
            after.diags@.len() >= head.diags@.len(),
            head.diags@.len() >= orig.diags@.len(),
            args == before.push(e),
            forall|j: int, a: Seq<Expr>|
                #[trigger] spells_args(kinds(orig.tokens@), i, j, a) && tag_at(kinds(orig.tokens@), j)
                    == Tag::RParen ==> head.clean(&orig) && before.len() < a.len() && spells_args(
                    kinds(orig.tokens@),
                    head.pos as int,
                    j,
                    a.subrange(before.len() as int, a.len() as int),
                ) && trees(before) == trees(a.subrange(0, before.len() as int)),
            after.finishes(&head, 0),
            after.settles(&head, 0, e),
            after.clean(&head) ==> covers(kinds(orig.tokens@), head.pos as int, after.pos as int, e.span),
        ensures
            forall|j: int, a: Seq<Expr>|
                #[trigger] spells_args(kinds(orig.tokens@), i, j, a) && tag_at(kinds(orig.tokens@), j)
                    == Tag::RParen ==> after.clean(&orig) && trees(args) == trees(
                    a.subrange(0, before.len() + 1 as int),
                ) && {
                    ||| before.len() + 1 == a.len() && after.pos == j
                    ||| before.len() + 1 == a.len() && tag_at(kinds(orig.tokens@), after.pos as int)
                        == Tag::Comma && after.pos + 1 == j
                    ||| before.len() + 1 < a.len() && tag_at(kinds(orig.tokens@), after.pos as int)
                        == Tag::Comma && spells_args(
                        kinds(orig.tokens@),
                        after.pos + 1,
                        j,
                        a.subrange(before.len() + 1 as int, a.len() as int),
                    )
                },
    {
        let t = kinds(orig.tokens@);
        let n = before.len() as int;
        let p = head.pos as int;
        assert(args.drop_last() =~= before);
        assert forall|j: int, a: Seq<Expr>|
            #[trigger] spells_args(t, i, j, a) && tag_at(t, j) == Tag::RParen implies after.clean(
                &orig,
            ) && trees(args) == trees(a.subrange(0, n + 1)) && {
                ||| n + 1 == a.len() && after.pos == j
                ||| n + 1 == a.len() && tag_at(t, after.pos as int) == Tag::Comma && after.pos + 1 == j
                ||| n + 1 < a.len() && tag_at(t, after.pos as int) == Tag::Comma && spells_args(
                    t,
                    after.pos + 1,
                    j,
                    a.subrange(n + 1, a.len() as int),
                )
            } by {
            let b = a.subrange(n, a.len() as int);
            lemma_args_front(t, p, j, b);
            let k = choose|k: int| #[trigger]
                spells(t, 0, p, k, b[0]) && covers(t, p, k, b[0].span) && {
                    ||| b.len() == 1 && k == j
                    ||| b.len() == 1 && k + 1 == j && tag_at(t, k) == Tag::Comma
                    ||| b.len() > 1 && tag_at(t, k) == Tag::Comma && spells_args(
                        t,
                        k + 1,
                        j,
                        b.subrange(1, b.len() as int),
                    )
                };
            assert(!continues(0, tag_at(t, k)));
            assert(spells(kinds(head.tokens@), 0, head.pos as int, k, b[0]));
            assert(after.pos == k);
            assert(b[0] == a[n]);
            assert(tree(e) == tree(b[0]));
            assert(a.subrange(0, n + 1).drop_last() =~= a.subrange(0, n));
            assert(a.subrange(0, n + 1).last() == a[n]);
            if b.len() > 1 {
                assert(b.subrange(1, b.len() as int) =~= a.subrange(n + 1, a.len() as int));
            }
        }
    }

    /// An action name, with arguments when it is built by a factory.
    fn action(&mut self) -> (r: Option<Action>)
        requires
            old(self).wf(),
        ensures
            final(self).advanced(old(self)),
            r is None ==> !final(self).clean(old(self)),
            final(self).clean(old(self)) ==> spells_action(
                kinds(old(self).tokens@),
                old(self).pos as int,
                final(self).pos as int,
                r->0,
            ),
            forall|j: int, a: Action|
                #[trigger] spells_action(kinds(old(self).tokens@), old(self).pos as int, j, a)
                    ==> final(self).clean(old(self)) && final(self).pos == j && action_tree(r->0)
                    == action_tree(a),
    {
        let name = self.name()?;
        let start = name.span;
        if !self.at(Tag::LParen) {
            return Some(Action { span: start, name, args: Vec::new() });
        }
        self.bump();
        let ghost mid = *self;
        let args = self.arg_list();
        proof {
            let t = kinds(old(self).tokens@);
            let i = old(self).pos as int;
            assert forall|j: int, a: Action| #[trigger] spells_action(t, i, j, a) implies self.clean(
                old(self),
            ) && self.pos == j - 1 && tag_at(t, j - 1) == Tag::RParen by {
                assert(spells_args(kinds(mid.tokens@), mid.pos as int, j - 1, a.args@));
            }
        }
        let close = self.peek_span();
        if !self.eat(Tag::RParen) {
            self.error(close, String::from_str("expected `)` to close the argument list"));
        }
        Some(Action { span: start.to(close), name, args })
    }

    /// The text of a `because`.
    fn string_literal(&mut self) -> (r: Option<String>)
        requires
            old(self).wf(),
        ensures
            final(self).advanced(old(self)),
            r is None ==> !final(self).clean(old(self)),
            r is Some ==> {
                &&& final(self).clean(old(self))
                &&& final(self).pos == old(self).pos + 1
                &&& old(self).tokens@[old(self).pos as int].kind matches TokenKind::Str(x)
                    && x@ == r->0@
            },
            tag_at(kinds(old(self).tokens@), old(self).pos as int) == Tag::Str ==> r is Some,
    {
        let span = self.peek_span();
        let tokens = self.tokens;
        match &tokens[self.pos].kind {
            TokenKind::Str(text) => {
                let text = text.clone();
                self.bump();
                Some(text)
            },
            _ => {
                self.error(span, String::from_str("expected a quoted string after `because`"));
                None
            },
        }
    }

    fn name(&mut self) -> (r: Option<Name>)
        requires
            old(self).wf(),
        ensures
            final(self).advanced(old(self)),
            r is Some ==> final(self).pos == old(self).pos + 1,
            r is Some ==> final(self).clean(old(self)),
            r is Some ==> ident_at(kinds(old(self).tokens@), old(self).pos as int, r->0.text@),
            r is Some ==> covers(
                kinds(old(self).tokens@),
                old(self).pos as int,
                old(self).pos + 1,
                r->0.span,
            ),
            r is Some ==> r->0.span == old(self).tokens@[old(self).pos as int].span,
            r is None ==> !final(self).clean(old(self)),
            tag_of(old(self).tokens@[old(self).pos as int].kind) == Tag::Identifier ==> r is Some,
    {
        let span = self.peek_span();
        let tokens = self.tokens;
        match &tokens[self.pos].kind {
            TokenKind::Identifier(text) => {
                let text = text.clone();
                self.bump();
                Some(Name { text, span })
            },
            _ => {
                self.error(span, String::from_str("expected a name"));
                None
            },
        }
    }

    // ---- cursor ----
    spec fn at_end_spec(&self) -> bool {
        tag_of(self.tokens@[self.pos as int].kind) == Tag::Eof
    }

    fn peek_tag(&self) -> (t: Tag)
        requires
            self.wf(),
        ensures
            t == tag_of(self.tokens@[self.pos as int].kind),
    {
        self.tokens[self.pos].kind.tag()
    }

    fn at(&self, t: Tag) -> (b: bool)
        requires
            self.wf(),
        ensures
            b == (tag_of(self.tokens@[self.pos as int].kind) == t),
    {
        self.peek_tag() == t
    }

    fn at_end(&self) -> (b: bool)
        requires
            self.wf(),
        ensures
            b == self.at_end_spec(),
    {
        self.at(Tag::Eof)
    }

    /// Where a diagnostic about the next token should point.
    fn peek_span(&self) -> (s: Span)
        requires
            self.wf(),
        ensures
            s == self.tokens@[self.pos as int].span,
    {
        self.tokens[self.pos].span
    }

    /// The span of the token just consumed.
    fn prev_span(&self) -> (s: Span)
        requires
            self.wf(),
        ensures
            self.pos > 0 ==> s == self.tokens@[self.pos - 1].span,
    {
        if self.pos > 0 {
            self.tokens[self.pos - 1].span
        } else {
            self.tokens[0].span
        }
    }

    /// Consumes the next token, clamping at `Eof` so a truncated file cannot
    /// run the cursor off the end.
    fn bump(&mut self)
        requires
            old(self).wf(),
        ensures
            final(self).wf(),
            final(self).tokens@ == old(self).tokens@,
            final(self).diags@ == old(self).diags@,
            old(self).at_end_spec() ==> final(self).pos == old(self).pos,
            !old(self).at_end_spec() ==> final(self).pos == old(self).pos + 1,
    {
        if !self.at_end() {
            // The last token is `Eof`, so one that is not has another after it.
            proof {
                if self.pos as int == self.tokens@.len() - 1 {
                    assert(self.tokens@.last() == self.tokens@[self.pos as int]);
                }
            }
            let n = self.tokens.len();
            if self.pos < n - 1 {
                self.pos += 1;
            }
        }
    }

    fn eat(&mut self, t: Tag) -> (b: bool)
        requires
            old(self).wf(),
        ensures
            final(self).advanced(old(self)),
            b == (tag_of(old(self).tokens@[old(self).pos as int].kind) == t),
            b && t != Tag::Eof ==> final(self).pos == old(self).pos + 1,
            !b ==> final(self).pos == old(self).pos,
            final(self).diags@ == old(self).diags@,
    {
        if self.at(t) {
            self.bump();
            true
        } else {
            false
        }
    }

    /// Reports on a mismatch but skips nothing: recovery is the caller's job.
    fn expect(&mut self, t: Tag, message: &str) -> (b: bool)
        requires
            old(self).wf(),
        ensures
            final(self).advanced(old(self)),
            b == (tag_of(old(self).tokens@[old(self).pos as int].kind) == t),
            b == final(self).clean(old(self)),
            b && t != Tag::Eof ==> final(self).pos == old(self).pos + 1,
            !b ==> final(self).pos == old(self).pos,
    {
        if self.eat(t) {
            return true;
        }
        let span = self.peek_span();
        self.error(span, String::from_str(message));
        false
    }

    fn error(&mut self, span: Span, message: String)
        requires
            old(self).wf(),
        ensures
            final(self).wf(),
            final(self).diags@.len() == old(self).diags@.len() + 1,
            said(final(self).diags@) == said(old(self).diags@) + one(message@, span),
            forall|k: int| 0 <= k < old(self).diags@.len() ==> #[trigger] final(self).diags@[k] == old(self).diags@[k],
            final(self).tokens@ == old(self).tokens@,
            final(self).pos == old(self).pos,
    {
        let d = Diagnostic::error(span, message);
        proof {
            lemma_said_push(self.diags@, d);
        }
        self.diags.push(d);
    }

    /// Panic-mode recovery: skip to the next token that can start a top-level
    /// item.
    fn recover(&mut self)
        requires
            old(self).wf(),
        ensures
            final(self).advanced(old(self)),
            final(self).diags@ == old(self).diags@,
            resumes_at(tag_of(final(self).tokens@[final(self).pos as int].kind)),
            forall|k: int|
                old(self).pos <= k < final(self).pos ==> !resumes_at(
                    tag_of(#[trigger] old(self).tokens@[k].kind),
                ),
    {
        while !self.at_end() && !self.at(Tag::Rule) && !self.at(Tag::Param) && !self.at(
            Tag::Def,
        )
            invariant
                self.advanced(old(self)),
                self.diags@ == old(self).diags@,
                forall|k: int|
                    old(self).pos <= k < self.pos ==> !resumes_at(
                        tag_of(#[trigger] old(self).tokens@[k].kind),
                    ),
            decreases self.remaining(),
        {
            self.bump();
        }
    }
}

/// A token where recovery stops: the end, or one that begins a top-level
/// item.
pub open spec fn resumes_at(tg: Tag) -> bool {
    tg == Tag::Eof || tg == Tag::Rule || tg == Tag::Param || tg == Tag::Def
}

// ---- what the parser does with what writes no program ----

/// `t[i..j]` is junk at the top level: it begins with a token that begins no
/// item and extends no expression, and runs up to the next token that begins
/// an item, or the end.
pub open spec fn junk_at(t: Seq<TokenSpec>, i: int, j: int) -> bool {
    &&& 0 <= i < j < t.len()
    &&& !resumes_at(tag_at(t, i))
    &&& tag_level(tag_at(t, i)) == -1
    &&& forall|k: int| i < k < j ==> !resumes_at(#[trigger] tag_at(t, k))
    &&& resumes_at(tag_at(t, j))
}

/// The tree that some top-level items declare.
pub open spec fn tops_tree(items: Seq<TopItem>) -> AstTree {
    AstTree {
        params: params_in(items).map_values(|p: Param| param_tree(p)),
        defs: defs_in(items).map_values(|d: Def| def_tree(d)),
        rules: rules_in(items).map_values(|r: Rule| rule_tree(r)),
    }
}

/// The declarations among some items, one more pushed.
pub proof fn lemma_in_push(items: Seq<TopItem>, it: TopItem)
    ensures
        params_in(items.push(it)) == match it {
            TopItem::Param(p) => params_in(items).push(p),
            _ => params_in(items),
        },
        defs_in(items.push(it)) == match it {
            TopItem::Def(d) => defs_in(items).push(d),
            _ => defs_in(items),
        },
        rules_in(items.push(it)) == match it {
            TopItem::Rule(r) => rules_in(items).push(r),
            _ => rules_in(items),
        },
{
    assert(items.push(it).drop_last() =~= items);
}

// ---- what the parser does with a rule body that holds stray tokens ----

/// A token inside a rule body that begins no field and extends no
/// expression: it is reported and skipped on its own.
pub open spec fn stray_at(t: Seq<TokenSpec>, k: int) -> bool {
    let tg = tag_at(t, k);
    &&& 0 <= k < t.len()
    &&& tg != Tag::Priority && tg != Tag::Category && tg != Tag::Do && tg != Tag::Because
    &&& tg != Tag::Let && tg != Tag::Require
    &&& tg != Tag::RBrace && tg != Tag::Eof
    &&& tag_level(tg) == -1
    &&& tg != Tag::LParen
}

/// `t[i..j]` is one piece of a rule body: a field where `p` is `Some`, one
/// stray token where it is `None`.
pub open spec fn piece_at(t: Seq<TokenSpec>, i: int, j: int, p: Option<RuleItem>) -> bool {
    match p {
        Some(it) => spells_rule_item(t, i, j, it),
        None => j == i + 1 && stray_at(t, i),
    }
}

/// `t[i..e]` is a rule body of fields and stray tokens, piece `m` between
/// `cuts[m]` and `cuts[m + 1]`, closed by the `}` at `e`.
#[verifier::opaque]
pub open spec fn body_with_strays(
    t: Seq<TokenSpec>,
    i: int,
    e: int,
    pieces: Seq<Option<RuleItem>>,
    cuts: Seq<int>,
) -> bool {
    &&& cuts.len() == pieces.len() + 1
    &&& cuts[0] == i
    &&& cuts.last() == e
    &&& 0 <= e < t.len()
    &&& tag_at(t, e) == Tag::RBrace
    &&& forall|m: int| 0 <= m < pieces.len() ==> #[trigger] piece_at(t, cuts[m], cuts[m + 1], pieces[m])
}

/// The fields among the pieces, in order.
#[verifier::opaque]
pub open spec fn fields_in(pieces: Seq<Option<RuleItem>>) -> Seq<RuleItem>
    decreases pieces.len(),
{
    if pieces.len() == 0 {
        Seq::empty()
    } else {
        match pieces.last() {
            Some(it) => fields_in(pieces.drop_last()).push(it),
            None => fields_in(pieces.drop_last()),
        }
    }
}

/// A field a rule takes at most once.
pub open spec fn once(f: Field) -> bool {
    f != Field::Let && f != Field::Require
}

/// What the parser says of a field written again.
pub open spec fn duplicate_text(f: Field) -> Seq<char> {
    match f {
        Field::Priority => "duplicate `priority`"@,
        Field::Category => "duplicate `category`"@,
        Field::Do => "duplicate `do`"@,
        _ => "duplicate `because`"@,
    }
}

/// What the parser says of one piece, after the fields `before`: a stray
/// token, or a field allowed once that was already written.
#[verifier::opaque]
pub open spec fn piece_said(before: Seq<RuleItem>, p: Option<RuleItem>, span: Span) -> Said {
    match p {
        None => one("expected a rule field or `require`"@, span),
        Some(it) => dup_said(before, it, span),
    }
}

/// What the parser says of the field `it`, after the fields `before`: that
/// it was written again, where it is allowed once.
pub open spec fn dup_said(before: Seq<RuleItem>, it: RuleItem, span: Span) -> Said {
    if once(field_of(it)) && picked(before, field_of(it)).len() > 0 {
        one(duplicate_text(field_of(it)), span)
    } else {
        Seq::empty()
    }
}

/// What the parser says of the pieces, each at its first token.
#[verifier::opaque]
pub open spec fn strays_said(ts: Seq<Token>, pieces: Seq<Option<RuleItem>>, cuts: Seq<int>) -> Said
    decreases pieces.len(),
{
    if pieces.len() == 0 {
        Seq::empty()
    } else {
        strays_said(ts, pieces.drop_last(), cuts) + piece_said(
            fields_in(pieces.drop_last()),
            pieces.last(),
            ts[cuts[pieces.len() - 1]].span,
        )
    }
}

/// The fields name a `priority`, a `category` and a `do`.
pub open spec fn has_needed(fields: Seq<RuleItem>) -> bool {
    &&& picked(fields, Field::Priority).len() > 0
    &&& picked(fields, Field::Category).len() > 0
    &&& picked(fields, Field::Do).len() > 0
}

/// What the parser says, at the rule's name, of the first needed field
/// missing.
pub open spec fn missing_said(fields: Seq<RuleItem>, span: Span) -> Said {
    if picked(fields, Field::Priority).len() == 0 {
        one("rule has no `priority`"@, span)
    } else if picked(fields, Field::Category).len() == 0 {
        one("rule has no `category`"@, span)
    } else if picked(fields, Field::Do).len() == 0 {
        one("rule has no `do`"@, span)
    } else {
        Seq::empty()
    }
}

/// The rule that fields make when some are written more than once: the
/// last of each field allowed once, every `let` and `require` in order.
pub open spec fn rule_kept(fields: Seq<RuleItem>, r: Rule) -> bool {
    &&& picked(fields, Field::Priority).len() > 0
    &&& item_tree(picked(fields, Field::Priority).last()) == item_tree(RuleItem::Priority(r.priority))
    &&& picked(fields, Field::Category).len() > 0
    &&& item_tree(picked(fields, Field::Category).last()) == item_tree(
        RuleItem::Category(r.category, r.exclusive),
    )
    &&& picked(fields, Field::Do).len() > 0
    &&& item_tree(picked(fields, Field::Do).last()) == item_tree(RuleItem::Do(r.action))
    &&& match r.because {
        Some(text) => picked(fields, Field::Because).len() > 0 && item_tree(
            picked(fields, Field::Because).last(),
        ) == item_tree(RuleItem::Because(text)),
        None => picked(fields, Field::Because).len() == 0,
    }
    &&& picked(fields, Field::Let).len() == r.lets@.len()
    &&& forall|m: int|
        0 <= m < r.lets@.len() ==> item_tree(#[trigger] picked(fields, Field::Let)[m]) == item_tree(
            RuleItem::Let(r.lets@[m]),
        )
    &&& picked(fields, Field::Require).len() == r.requires@.len()
    &&& forall|m: int|
        0 <= m < r.requires@.len() ==> item_tree(#[trigger] picked(fields, Field::Require)[m])
            == item_tree(RuleItem::Require(r.requires@[m]))
}

/// Two lists of fields written alike, one for one.
#[verifier::opaque]
pub open spec fn same_fields(a: Seq<RuleItem>, b: Seq<RuleItem>) -> bool {
    &&& a.len() == b.len()
    &&& forall|m: int| 0 <= m < a.len() ==> field_of(#[trigger] a[m]) == field_of(b[m])
    &&& forall|m: int| 0 <= m < a.len() ==> item_tree(#[trigger] a[m]) == item_tree(b[m])
}

/// The fields of each kind, one more pushed.
proof fn lemma_picked_push(items: Seq<RuleItem>, it: RuleItem)
    ensures
        forall|f: Field| #[trigger]
            picked(items.push(it), f) == if field_of(it) == f {
                picked(items, f).push(it)
            } else {
                picked(items, f)
            },
{
    assert(items.push(it).drop_last() =~= items);
}

/// Where piece `n` of a body with strays begins, and what follows it.
proof fn lemma_stray_next(
    t: Seq<TokenSpec>,
    i: int,
    e: int,
    pieces: Seq<Option<RuleItem>>,
    cuts: Seq<int>,
    n: int,
)
    requires
        body_with_strays(t, i, e, pieces, cuts),
        0 <= n <= pieces.len(),
        tag_at(t, cuts[n]) != Tag::RBrace,
    ensures
        n < pieces.len(),
        pieces[n] is Some ==> spells_rule_item(t, cuts[n], cuts[n + 1], pieces[n]->0),
        pieces[n] is None ==> cuts[n + 1] == cuts[n] + 1,
        match pieces[n] {
            Some(it) => tag_at(t, cuts[n]) == field_tag(field_of(it)),
            None => stray_at(t, cuts[n]),
        },
        tag_level(tag_at(t, cuts[n + 1])) == -1,
        tag_at(t, cuts[n + 1]) != Tag::LParen,
{
    reveal(body_with_strays);
    if n == pieces.len() {
        assert(cuts[n] == e);
    }
    assert(piece_at(t, cuts[n], cuts[n + 1], pieces[n]));
    if n + 1 < pieces.len() {
        assert(piece_at(t, cuts[n + 1], cuts[n + 1 + 1], pieces[n + 1]));
    }
}

/// One more piece taken.
proof fn lemma_strays_step(
    ts: Seq<Token>,
    pieces: Seq<Option<RuleItem>>,
    cuts: Seq<int>,
    n: int,
)
    requires
        0 <= n < pieces.len(),
    ensures
        fields_in(pieces.take(n + 1)) == match pieces[n] {
            Some(it) => fields_in(pieces.take(n)).push(it),
            None => fields_in(pieces.take(n)),
        },
        strays_said(ts, pieces.take(n + 1), cuts) == strays_said(ts, pieces.take(n), cuts)
            + piece_said(fields_in(pieces.take(n)), pieces[n], ts[cuts[n]].span),
{
    reveal_with_fuel(fields_in, 1);
    reveal_with_fuel(strays_said, 1);
    assert(pieces.take(n + 1).drop_last() =~= pieces.take(n));
    assert(pieces.take(n + 1).last() == pieces[n]);
}

/// Fields written alike, one more each.
proof fn lemma_same_fields_push(a: Seq<RuleItem>, b: Seq<RuleItem>, x: RuleItem, y: RuleItem)
    requires
        same_fields(a, b),
        field_of(x) == field_of(y),
        item_tree(x) == item_tree(y),
    ensures
        same_fields(a.push(x), b.push(y)),
        forall|f: Field| #[trigger] picked(a, f).len() == picked(b, f).len(),
{
    reveal(same_fields);
    assert forall|m: int| 0 <= m < a.push(x).len() implies field_of(#[trigger] a.push(x)[m])
        == field_of(b.push(y)[m]) && item_tree(a.push(x)[m]) == item_tree(b.push(y)[m]) by {
        if m < a.len() {
            assert(a.push(x)[m] == a[m]);
            assert(b.push(y)[m] == b[m]);
        }
    }
    assert forall|f: Field| #[trigger] picked(a, f).len() == picked(b, f).len() by {
        lemma_picked_same(a, b, f);
    }
}

/// A field read as piece `n` planned it.
proof fn lemma_field_piece(
    ts: Seq<Token>,
    pieces: Seq<Option<RuleItem>>,
    cuts: Seq<int>,
    n: int,
    done: Seq<RuleItem>,
    it: RuleItem,
    before: Said,
    start: Said,
    now: Said,
)
    requires
        0 <= n < pieces.len(),
        pieces[n] is Some,
        field_of(it) == field_of(pieces[n]->0),
        item_tree(it) == item_tree(pieces[n]->0),
        same_fields(done, fields_in(pieces.take(n))),
        start == before + strays_said(ts, pieces.take(n), cuts),
        now == start + dup_said(done, it, ts[cuts[n]].span),
    ensures
        same_fields(done.push(it), fields_in(pieces.take(n + 1))),
        now == before + strays_said(ts, pieces.take(n + 1), cuts),
{
    reveal(piece_said);
    let x = pieces[n]->0;
    lemma_strays_step(ts, pieces, cuts, n);
    lemma_same_fields_push(done, fields_in(pieces.take(n)), it, x);
    assert(now =~= before + strays_said(ts, pieces.take(n + 1), cuts));
}

/// A field read at `at`, ending at `pos`: where a body with strays plans
/// piece `read` there, it is that field, read whole.
proof fn lemma_field_step(
    t: Seq<TokenSpec>,
    ts: Seq<Token>,
    body: int,
    read: int,
    at: int,
    done: Seq<RuleItem>,
    it: RuleItem,
    before: Said,
    start: Said,
    now: Said,
    pos: int,
)
    requires
        0 <= read,
        tag_at(t, at) == field_tag(field_of(it)),
        forall|e: int, pieces: Seq<Option<RuleItem>>, cuts: Seq<int>|
            #[trigger] body_with_strays(t, body, e, pieces, cuts) ==> {
                &&& read <= pieces.len()
                &&& at == cuts[read]
                &&& same_fields(done, fields_in(pieces.take(read)))
                &&& start == before + strays_said(ts, pieces.take(read), cuts)
            },
        forall|j: int, x: RuleItem|
            #[trigger] spells_rule_item(t, at, j, x) && field_of(x) == field_of(it) && tag_level(
                tag_at(t, j),
            ) == -1 && tag_at(t, j) != Tag::LParen ==> j == pos && item_tree(x) == item_tree(it)
                && now == start + dup_said(done, it, ts[at].span),
    ensures
        forall|e: int, pieces: Seq<Option<RuleItem>>, cuts: Seq<int>|
            #[trigger] body_with_strays(t, body, e, pieces, cuts) ==> {
                &&& read + 1 <= pieces.len()
                &&& pos == cuts[read + 1]
                &&& same_fields(done.push(it), fields_in(pieces.take(read + 1)))
                &&& now == before + strays_said(ts, pieces.take(read + 1), cuts)
            },
{
    assert forall|e: int, pieces: Seq<Option<RuleItem>>, cuts: Seq<int>|
        #[trigger] body_with_strays(t, body, e, pieces, cuts) implies {
            &&& read + 1 <= pieces.len()
            &&& pos == cuts[read + 1]
            &&& same_fields(done.push(it), fields_in(pieces.take(read + 1)))
            &&& now == before + strays_said(ts, pieces.take(read + 1), cuts)
        } by {
        lemma_stray_next(t, body, e, pieces, cuts, read);
        match pieces[read] {
            Some(x) => {
                assert(field_of(x) == field_of(it));
                assert(spells_rule_item(t, at, cuts[read + 1], x));
                lemma_field_piece(ts, pieces, cuts, read, done, it, before, start, now);
            },
            None => {},
        }
    }
}

/// A body whose fields are a rule's own, read as a body with strays: it has
/// none, every field is kept, and nothing is reported.
proof fn lemma_target_lenient(
    t: Seq<TokenSpec>,
    ts: Seq<Token>,
    i: int,
    e: int,
    items: Seq<RuleItem>,
    cuts: Seq<int>,
)
    requires
        rule_target(t, i, e, items, cuts),
        0 <= e < t.len(),
    ensures
        body_with_strays(t, i, e, items.map_values(|x: RuleItem| Some(x)), cuts),
        fields_in(items.map_values(|x: RuleItem| Some(x))) == items,
        strays_said(ts, items.map_values(|x: RuleItem| Some(x)), cuts) == Seq::<(Seq<char>, Span)>::empty(),
{
    reveal(body_with_strays);
    let pieces = items.map_values(|x: RuleItem| Some(x));
    assert forall|m: int| 0 <= m < pieces.len() implies #[trigger] piece_at(t, cuts[m], cuts[m + 1], pieces[m]) by {
        assert(spells_rule_item(t, cuts[m], cuts[m + 1], items[m]));
    }
    lemma_all_fields(ts, items, cuts);
}

proof fn lemma_all_fields(ts: Seq<Token>, items: Seq<RuleItem>, cuts: Seq<int>)
    requires
        forall|f: Field| once(f) ==> #[trigger] picked(items, f).len() <= 1,
    ensures
        fields_in(items.map_values(|x: RuleItem| Some(x))) == items,
        strays_said(ts, items.map_values(|x: RuleItem| Some(x)), cuts) == Seq::<(Seq<char>, Span)>::empty(),
    decreases items.len(),
{
    reveal_with_fuel(fields_in, 1);
    reveal_with_fuel(strays_said, 1);
    reveal(piece_said);
    let pieces = items.map_values(|x: RuleItem| Some(x));
    if items.len() > 0 {
        let front = items.drop_last();
        let it = items.last();
        lemma_picked_push(front, it);
        assert(front.push(it) =~= items);
        assert forall|f: Field| #[trigger] picked(front, f).len() <= picked(items, f).len() by {
            assert(picked(items, f) == picked(front.push(it), f));
            if field_of(it) == f {
                assert(picked(front.push(it), f) == picked(front, f).push(it));
            } else {
                assert(picked(front.push(it), f) == picked(front, f));
            }
        }
        assert forall|f: Field| once(f) implies #[trigger] picked(front, f).len() <= 1 by {
            assert(picked(front, f).len() <= picked(items, f).len());
            assert(picked(items, f).len() <= 1);
        }
        lemma_all_fields(ts, front, cuts);
        assert(pieces.drop_last() =~= front.map_values(|x: RuleItem| Some(x)));
        assert(pieces.last() == Some(it));
        assert(picked(items, field_of(it)) == picked(front.push(it), field_of(it)));
        assert(picked(front.push(it), field_of(it)) == picked(front, field_of(it)).push(it));
        if once(field_of(it)) {
            assert(picked(items, field_of(it)).len() <= 1);
            assert(picked(front, field_of(it)).len() == 0);
        }
        assert(dup_said(front, it, ts[cuts[items.len() - 1]].span) =~= Seq::<(Seq<char>, Span)>::empty());
        assert(strays_said(ts, pieces, cuts) =~= Seq::<(Seq<char>, Span)>::empty());
    } else {
        assert(pieces.len() == 0);
    }
}

/// A stray token skipped as piece `n` planned it.
proof fn lemma_stray_piece(
    ts: Seq<Token>,
    pieces: Seq<Option<RuleItem>>,
    cuts: Seq<int>,
    n: int,
    done: Seq<RuleItem>,
    before: Said,
    start: Said,
    now: Said,
)
    requires
        0 <= n < pieces.len(),
        pieces[n] is None,
        same_fields(done, fields_in(pieces.take(n))),
        start == before + strays_said(ts, pieces.take(n), cuts),
        now == start + one("expected a rule field or `require`"@, ts[cuts[n]].span),
    ensures
        same_fields(done, fields_in(pieces.take(n + 1))),
        now == before + strays_said(ts, pieces.take(n + 1), cuts),
{
    reveal(piece_said);
    lemma_strays_step(ts, pieces, cuts, n);
    assert(now =~= before + strays_said(ts, pieces.take(n + 1), cuts));
}

/// At a `}` or the end, every piece was read.
proof fn lemma_stray_end(
    t: Seq<TokenSpec>,
    i: int,
    e: int,
    pieces: Seq<Option<RuleItem>>,
    cuts: Seq<int>,
    n: int,
)
    requires
        body_with_strays(t, i, e, pieces, cuts),
        0 <= n <= pieces.len(),
        tag_at(t, cuts[n]) == Tag::RBrace || tag_at(t, cuts[n]) == Tag::Eof,
    ensures
        n == pieces.len(),
        cuts[n] == e,
        pieces.take(n) == pieces,
        0 <= e < t.len(),
        tag_at(t, e) == Tag::RBrace,
{
    reveal(body_with_strays);
    if n < pieces.len() {
        assert(piece_at(t, cuts[n], cuts[n + 1], pieces[n]));
    }
    assert(pieces.take(n) =~= pieces);
}

/// Fields alike, one for one, keep alike when those of one kind are picked,
/// the last of each kind too.
proof fn lemma_same_fields_picked(a: Seq<RuleItem>, b: Seq<RuleItem>, f: Field)
    requires
        same_fields(a, b),
    ensures
        picked(a, f).len() == picked(b, f).len(),
        forall|m: int|
            0 <= m < picked(a, f).len() ==> item_tree(#[trigger] picked(a, f)[m]) == item_tree(
                picked(b, f)[m],
            ),
        picked(a, f).len() > 0 ==> item_tree(picked(a, f).last()) == item_tree(picked(b, f).last()),
{
    reveal(same_fields);
    lemma_picked_trees(a, b, f);
    if picked(a, f).len() > 0 {
        let k = picked(a, f).len() - 1;
        assert(item_tree(picked(a, f)[k]) == item_tree(picked(b, f)[k]));
    }
}

/// Folds two operands into a binary node spanning both.
fn binary(op: BinOp, left: Expr, right: Expr) -> (e: Expr)
    ensures
        e.kind == ExprKind::Binary(op, Box::new(left), Box::new(right)),
        e.span.start == left.span.start,
        e.span.end == right.span.end,
{
    Expr { span: left.span.to(right.span), kind: ExprKind::Binary(op, Box::new(left), Box::new(right)) }
}

/// Stands in for an expression that failed to parse.
fn error_expr(span: Span) -> (e: Expr)
    ensures
        e.span == span,
        e.kind is Error,
{
    Expr { kind: ExprKind::Error, span }
}

} // verus!
