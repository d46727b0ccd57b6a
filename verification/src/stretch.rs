//! What the parser makes of a whole file that holds junk and broken rules:
//! the file cut into stretches, what is reported of each, and the items that
//! still come back.
use crate::ast::{Ast, Def, Let, Param, Rule, AstTree, RuleTree, ParamTree, DefTree, param_tree, def_tree, rule_tree, let_tree, trees, lemma_trees};
use crate::diag::Span;
use crate::grammar::{
    Field, RuleItem, TopItem, TopTree, ItemTree, covers, ident_at, item_tree, kinds, picked, spells_top,
    tag_at, tag_level, top_tree, params_in, defs_in, rules_in,
};
use crate::lexer::TokenSpec;
use crate::parser::{
    body_with_strays, fields_in, has_needed, junk_at, lemma_in_push, missing_said, resumes_at,
    rule_kept, strays_said, tops_tree,
};
use crate::said::{Said, one};
use crate::token::{Tag, Token, TokenView};
use vstd::prelude::*;

verus! {

/// One stretch of a file, as the parser reads it.
pub enum Stretch {
    /// An item written in full.
    Item(TopItem),
    /// Junk, up to the next item or the end.
    Junk,
    /// A rule whose body holds stray tokens, fields written twice, or lacks a
    /// field: its body's pieces and where they lie.
    Broken(Seq<Option<RuleItem>>, Seq<int>),
}

/// `t[i..j]` is `rule name { body }` with a body of fields and stray tokens.
pub open spec fn broken_rule_at(t: Seq<TokenSpec>, i: int, j: int, pieces: Seq<Option<RuleItem>>, cuts: Seq<int>) -> bool {
    &&& 0 <= i
    &&& tag_at(t, i) == Tag::Rule
    &&& tag_at(t, i + 1) == Tag::Identifier
    &&& tag_at(t, i + 2) == Tag::LBrace
    &&& body_with_strays(t, i + 3, j - 1, pieces, cuts)
}

pub open spec fn stretch_at(t: Seq<TokenSpec>, i: int, j: int, st: Stretch) -> bool {
    match st {
        Stretch::Item(it) => spells_top(t, i, j, it),
        Stretch::Junk => junk_at(t, i, j),
        Stretch::Broken(pieces, cuts) => broken_rule_at(t, i, j, pieces, cuts),
    }
}

/// The token stream, from its start up to an `Eof`, is stretches, stretch
/// `m` between `cuts[m]` and `cuts[m + 1]`.
pub open spec fn writes_in_stretches(t: Seq<TokenSpec>, stretches: Seq<Stretch>, cuts: Seq<int>) -> bool {
    &&& cuts.len() == stretches.len() + 1
    &&& cuts[0] == 0
    &&& 0 <= cuts.last() < t.len()
    &&& tag_at(t, cuts.last()) == Tag::Eof
    &&& forall|m: int| 0 <= m < stretches.len() ==> stretch_at(t, cuts[m], cuts[m + 1], #[trigger] stretches[m])
}

/// What the parser says of a stretch that begins at `at`.
pub open spec fn stretch_said(ts: Seq<Token>, st: Stretch, at: int) -> Said {
    match st {
        Stretch::Item(_) => Seq::empty(),
        Stretch::Junk => one("expected `rule`"@, ts[at].span),
        Stretch::Broken(pieces, cuts) => strays_said(ts, pieces, cuts) + missing_said(fields_in(pieces), ts[at + 1].span),
    }
}

/// What the parser says of the stretches, in order.
pub open spec fn stretches_said(ts: Seq<Token>, stretches: Seq<Stretch>, cuts: Seq<int>) -> Said
    decreases stretches.len(),
{
    if stretches.len() == 0 {
        Seq::empty()
    } else {
        stretches_said(ts, stretches.drop_last(), cuts) + stretch_said(
            ts,
            stretches.last(),
            cuts[stretches.len() - 1],
        )
    }
}

/// The rule that a broken rule's fields keep (see `rule_kept`), as written:
/// the rule begins at `i` and its `}` is token `e`.
pub open spec fn kept_tree(ts: Seq<Token>, i: int, e: int, fields: Seq<RuleItem>) -> RuleTree {
    RuleTree {
        name: (
            match kinds(ts)[i + 1].0 {
                TokenView::Identifier(n) => n,
                _ => Seq::empty(),
            },
            ts[i + 1].span,
        ),
        priority: match item_tree(picked(fields, Field::Priority).last()) {
            ItemTree::Priority(x) => x,
            _ => arbitrary(),
        },
        category: match item_tree(picked(fields, Field::Category).last()) {
            ItemTree::Category(n, _) => n,
            _ => arbitrary(),
        },
        exclusive: match item_tree(picked(fields, Field::Category).last()) {
            ItemTree::Category(_, ex) => ex,
            _ => false,
        },
        action: match item_tree(picked(fields, Field::Do).last()) {
            ItemTree::Do(a) => a,
            _ => arbitrary(),
        },
        because: if picked(fields, Field::Because).len() > 0 {
            match item_tree(picked(fields, Field::Because).last()) {
                ItemTree::Because(text) => Some(text),
                _ => None,
            }
        } else {
            None
        },
        lets: picked(fields, Field::Let).map_values(
            |it: RuleItem|
                match item_tree(it) {
                    ItemTree::Let(l) => l,
                    _ => arbitrary(),
                },
        ),
        requires: picked(fields, Field::Require).map_values(
            |it: RuleItem|
                match item_tree(it) {
                    ItemTree::Require(x) => x,
                    _ => arbitrary(),
                },
        ),
        span: Span { start: ts[i].span.start, end: ts[e].span.end },
    }
}

/// The items the stretches give, as written: every full item, and every
/// broken rule that still has its `priority`, `category` and `do`.
pub open spec fn stretch_trees(ts: Seq<Token>, stretches: Seq<Stretch>, cuts: Seq<int>) -> Seq<TopTree>
    decreases stretches.len(),
{
    if stretches.len() == 0 {
        Seq::empty()
    } else {
        let rest = stretch_trees(ts, stretches.drop_last(), cuts);
        match stretches.last() {
            Stretch::Item(it) => rest.push(top_tree(it)),
            Stretch::Junk => rest,
            Stretch::Broken(pieces, body) => if has_needed(fields_in(pieces)) {
                rest.push(TopTree::Rule(kept_tree(ts, cuts[stretches.len() - 1], cuts[stretches.len() as int] - 1, fields_in(pieces))))
            } else {
                rest
            },
        }
    }
}

pub open spec fn params_of(tt: Seq<TopTree>) -> Seq<ParamTree>
    decreases tt.len(),
{
    if tt.len() == 0 {
        Seq::empty()
    } else {
        match tt.last() {
            TopTree::Param(p) => params_of(tt.drop_last()).push(p),
            _ => params_of(tt.drop_last()),
        }
    }
}

pub open spec fn defs_of(tt: Seq<TopTree>) -> Seq<DefTree>
    decreases tt.len(),
{
    if tt.len() == 0 {
        Seq::empty()
    } else {
        match tt.last() {
            TopTree::Def(d) => defs_of(tt.drop_last()).push(d),
            _ => defs_of(tt.drop_last()),
        }
    }
}

pub open spec fn rules_of(tt: Seq<TopTree>) -> Seq<RuleTree>
    decreases tt.len(),
{
    if tt.len() == 0 {
        Seq::empty()
    } else {
        match tt.last() {
            TopTree::Rule(r) => rules_of(tt.drop_last()).push(r),
            _ => rules_of(tt.drop_last()),
        }
    }
}

/// The tree that some top-level items, as written, declare.
pub open spec fn file_tree(tt: Seq<TopTree>) -> AstTree {
    AstTree { params: params_of(tt), defs: defs_of(tt), rules: rules_of(tt) }
}

/// Items declare, as written, what their trees declare.
pub proof fn lemma_file_tree(items: Seq<TopItem>)
    ensures
        tops_tree(items) == file_tree(items.map_values(|x: TopItem| top_tree(x))),
    decreases items.len(),
{
    let tt = items.map_values(|x: TopItem| top_tree(x));
    if items.len() > 0 {
        let front = items.drop_last();
        lemma_file_tree(front);
        assert(tt.drop_last() =~= front.map_values(|x: TopItem| top_tree(x)));
        lemma_in_push(front, items.last());
        assert(front.push(items.last()) =~= items);
        assert(tt.last() == top_tree(items.last()));
        match items.last() {
            TopItem::Param(p) => {
                assert(params_in(items).map_values(|q: Param| param_tree(q)) =~= params_in(front).map_values(
                    |q: Param| param_tree(q),
                ).push(param_tree(p)));
                assert(defs_in(items) == defs_in(front));
                assert(rules_in(items) == rules_in(front));
            },
            TopItem::Def(d) => {
                assert(defs_in(items).map_values(|q: Def| def_tree(q)) =~= defs_in(front).map_values(
                    |q: Def| def_tree(q),
                ).push(def_tree(d)));
                assert(params_in(items) == params_in(front));
                assert(rules_in(items) == rules_in(front));
            },
            TopItem::Rule(r) => {
                assert(rules_in(items).map_values(|q: Rule| rule_tree(q)) =~= rules_in(front).map_values(
                    |q: Rule| rule_tree(q),
                ).push(rule_tree(r)));
                assert(params_in(items) == params_in(front));
                assert(defs_in(items) == defs_in(front));
            },
        }
    } else {
        assert(params_in(items) =~= Seq::<Param>::empty());
        assert(defs_in(items) =~= Seq::<Def>::empty());
        assert(rules_in(items) =~= Seq::<Rule>::empty());
        assert(tops_tree(items).params =~= Seq::<ParamTree>::empty());
        assert(tops_tree(items).defs =~= Seq::<DefTree>::empty());
        assert(tops_tree(items).rules =~= Seq::<RuleTree>::empty());
    }
}

/// A rule kept from a broken body is, as written, what `kept_tree` says.
pub proof fn lemma_kept_tree(ts: Seq<Token>, i: int, e: int, fields: Seq<RuleItem>, r: Rule)
    requires
        rule_kept(fields, r),
        ident_at(kinds(ts), i + 1, r.name.text@),
        r.name.span == ts[i + 1].span,
        covers(kinds(ts), i, e + 1, r.span),
    ensures
        rule_tree(r) == kept_tree(ts, i, e, fields),
{
    let k = kept_tree(ts, i, e, fields);
    let lp = picked(fields, Field::Let);
    let rp = picked(fields, Field::Require);
    let ls = r.lets@.map_values(|l: Let| let_tree(l));
    assert forall|m: int| 0 <= m < r.lets@.len() implies #[trigger] ls[m] == k.lets[m] by {
        assert(item_tree(lp[m]) == item_tree(RuleItem::Let(r.lets@[m])));
    }
    assert(ls =~= k.lets);
    lemma_trees(r.requires@);
    assert forall|m: int| 0 <= m < r.requires@.len() implies #[trigger] trees(r.requires@)[m] == k.requires[m] by {
        assert(item_tree(rp[m]) == item_tree(RuleItem::Require(r.requires@[m])));
    }
    assert(trees(r.requires@) =~= k.requires);
}

/// One more stretch taken.
pub proof fn lemma_stretch_step(ts: Seq<Token>, stretches: Seq<Stretch>, cuts: Seq<int>, n: int)
    requires
        0 <= n < stretches.len(),
    ensures
        stretches_said(ts, stretches.take(n + 1), cuts) == stretches_said(ts, stretches.take(n), cuts)
            + stretch_said(ts, stretches[n], cuts[n]),
        stretch_trees(ts, stretches.take(n + 1), cuts) == match stretches[n] {
            Stretch::Item(it) => stretch_trees(ts, stretches.take(n), cuts).push(top_tree(it)),
            Stretch::Junk => stretch_trees(ts, stretches.take(n), cuts),
            Stretch::Broken(pieces, body) => if has_needed(fields_in(pieces)) {
                stretch_trees(ts, stretches.take(n), cuts).push(
                    TopTree::Rule(kept_tree(ts, cuts[n], cuts[n + 1] - 1, fields_in(pieces))),
                )
            } else {
                stretch_trees(ts, stretches.take(n), cuts)
            },
        },
{
    assert(stretches.take(n + 1).drop_last() =~= stretches.take(n));
    assert(stretches.take(n + 1).last() == stretches[n]);
}

/// Where stretch `n` begins, and that what follows it extends no
/// expression.
pub proof fn lemma_stretch_at(t: Seq<TokenSpec>, stretches: Seq<Stretch>, cuts: Seq<int>, n: int)
    requires
        writes_in_stretches(t, stretches, cuts),
        0 <= n < stretches.len(),
    ensures
        stretch_at(t, cuts[n], cuts[n + 1], stretches[n]),
        match stretches[n] {
            Stretch::Item(TopItem::Param(p)) => tag_at(t, cuts[n]) == Tag::Param,
            Stretch::Item(TopItem::Def(d)) => tag_at(t, cuts[n]) == Tag::Def,
            Stretch::Item(TopItem::Rule(r)) => tag_at(t, cuts[n]) == Tag::Rule,
            Stretch::Junk => !resumes_at(tag_at(t, cuts[n])),
            Stretch::Broken(_, _) => tag_at(t, cuts[n]) == Tag::Rule,
        },
        tag_level(tag_at(t, cuts[n + 1])) == -1,
{
    assert(stretch_at(t, cuts[n], cuts[n + 1], stretches[n]));
    if n + 1 < stretches.len() {
        assert(stretch_at(t, cuts[n + 1], cuts[n + 1 + 1], stretches[n + 1]));
    }
}

} // verus!
