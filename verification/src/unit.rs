//! Several files, one compilation.
//!
//! A rule set is written across several files, but there is no such thing as
//! checking one of them: a `def` in one file is called from another, and a
//! `param` is only meaningful against the doctrine the whole set is compiled
//! with. So the unit — not the file — is what parses, checks and emits.
//!
//! Each file is lexed with its spans shifted into the unit's coordinate space
//! (see `diag::SourceMap`) and parsed on its own, then the trees are
//! concatenated. Parsing per file rather than concatenating the text first
//! keeps one file's unclosed brace from swallowing the next one's rules.
use crate::ast::{Ast, AstTree, Def, Param, Rule, ast_tree, def_tree, param_tree, rule_tree};
use crate::diag::{Diagnostic, SourceMap};
use crate::grammar::{kinds, spells_program};
use crate::totality::{holes_free, lemma_program_whole, rule_whole, whole};
use crate::lexer::{TokenSpec, diag_views, lex_from, token_views};
use crate::parser::parse_result;
use crate::token::Token;
use vstd::prelude::*;
use vstd::utf8::*;

verus! {

/// A rule set assembled from its files, before checking.
pub struct Unit {
    pub ast: Ast,
    pub sources: SourceMap,
    /// Everything the lexer and parser found, across all files.
    pub diags: Vec<Diagnostic>,
}

/// How much of the unit's offset space the files take: each file's bytes and
/// the separator after it.
pub open spec fn unit_size(files: Seq<(String, String)>) -> int
    decreases files.len(),
{
    if files.len() == 0 {
        0
    } else {
        unit_size(files.drop_last()) + encode_utf8(files.last().1@).len() + 1
    }
}

/// What the lexer makes of a file's text placed at `base`, as the grammar
/// sees it.
pub open spec fn lexed_kinds(text: Seq<char>, base: int) -> Seq<TokenSpec> {
    lex_from(encode_utf8(text), 0, base).0
}

/// A file that lexes without a diagnostic into tokens that write a program.
pub open spec fn file_clean(text: Seq<char>, base: int) -> bool {
    &&& lex_from(encode_utf8(text), 0, base).1.len() == 0
    &&& exists|a: Ast| spells_program(lexed_kinds(text, base), a)
}

/// Where file `i` starts in the unit's offset space.
pub open spec fn file_base(files: Seq<(String, String)>, i: int) -> int {
    unit_size(files.take(i))
}

/// Every file's parameters, in file order.
pub open spec fn all_params(trees: Seq<Ast>) -> Seq<Param>
    decreases trees.len(),
{
    if trees.len() == 0 {
        Seq::empty()
    } else {
        all_params(trees.drop_last()) + trees.last().params@
    }
}

/// Every file's defs, in file order.
pub open spec fn all_defs(trees: Seq<Ast>) -> Seq<Def>
    decreases trees.len(),
{
    if trees.len() == 0 {
        Seq::empty()
    } else {
        all_defs(trees.drop_last()) + trees.last().defs@
    }
}

/// Every file's rules, in file order.
pub open spec fn all_rules(trees: Seq<Ast>) -> Seq<Rule>
    decreases trees.len(),
{
    if trees.len() == 0 {
        Seq::empty()
    } else {
        all_rules(trees.drop_last()) + trees.last().rules@
    }
}

/// The files' trees as written (see `ast::tree`), joined in file order.
pub open spec fn joined_tree(trees: Seq<Ast>) -> AstTree {
    AstTree {
        params: all_params(trees).map_values(|p: Param| param_tree(p)),
        defs: all_defs(trees).map_values(|d: Def| def_tree(d)),
        rules: all_rules(trees).map_values(|r: Rule| rule_tree(r)),
    }
}

/// Trees written alike, one for one, join alike.
pub proof fn lemma_joined_tree(a: Seq<Ast>, b: Seq<Ast>)
    requires
        a.len() == b.len(),
        forall|j: int| 0 <= j < a.len() ==> ast_tree(#[trigger] a[j]) == ast_tree(b[j]),
    ensures
        joined_tree(a) == joined_tree(b),
    decreases a.len(),
{
    if a.len() > 0 {
        let n = a.len() - 1;
        assert forall|j: int| 0 <= j < a.drop_last().len() implies ast_tree(#[trigger] a.drop_last()[j])
            == ast_tree(b.drop_last()[j]) by {
            assert(a.drop_last()[j] == a[j]);
            assert(b.drop_last()[j] == b[j]);
        }
        lemma_joined_tree(a.drop_last(), b.drop_last());
        assert(ast_tree(a[n]) == ast_tree(b[n]));
        let fa = joined_tree(a.drop_last());
        assert(joined_tree(a).params =~= fa.params + a.last().params@.map_values(|p: Param| param_tree(p)));
        assert(joined_tree(b).params =~= fa.params + b.last().params@.map_values(|p: Param| param_tree(p)));
        assert(joined_tree(a).defs =~= fa.defs + a.last().defs@.map_values(|d: Def| def_tree(d)));
        assert(joined_tree(b).defs =~= fa.defs + b.last().defs@.map_values(|d: Def| def_tree(d)));
        assert(joined_tree(a).rules =~= fa.rules + a.last().rules@.map_values(|r: Rule| rule_tree(r)));
        assert(joined_tree(b).rules =~= fa.rules + b.last().rules@.map_values(|r: Rule| rule_tree(r)));
    }
}

/// Each file's tokens write the tree at the same place in `trees`.
pub open spec fn spelled_files(files: Seq<(String, String)>, trees: Seq<Ast>) -> bool {
    &&& trees.len() == files.len()
    &&& forall|i: int|
        0 <= i < files.len() ==> spells_program(
            lexed_kinds(files[i].1@, file_base(files, i)),
            #[trigger] trees[i],
        )
}

/// The unit's tree is the files' trees, each what its tokens write, joined
/// in file order.
pub open spec fn joined(files: Seq<(String, String)>, trees: Seq<Ast>, ast: Ast) -> bool {
    &&& trees.len() == files.len()
    &&& forall|i: int|
        0 <= i < files.len() ==> spells_program(
            lexed_kinds(files[i].1@, file_base(files, i)),
            #[trigger] trees[i],
        )
    &&& ast.params@ == all_params(trees)
    &&& ast.defs@ == all_defs(trees)
    &&& ast.rules@ == all_rules(trees)
}

/// The unit's tree is the files' own trees, joined in file order, whatever
/// any file reported: each file whose tokens write a program gives the tree
/// they write, at its place.
pub open spec fn assembled(files: Seq<(String, String)>, trees: Seq<Ast>, ast: Ast) -> bool {
    &&& trees.len() == files.len()
    &&& ast.params@ == all_params(trees)
    &&& ast.defs@ == all_defs(trees)
    &&& ast.rules@ == all_rules(trees)
    &&& forall|i: int, a: Ast|
        0 <= i < files.len() && #[trigger] spells_program(lexed_kinds(files[i].1@, file_base(files, i)), a)
            ==> ast_tree(trees[i]) == ast_tree(a)
}

/// Everything the lexer and the parser report, file by file: each file's
/// lexer diagnostics, then its parser diagnostics.
pub open spec fn unit_diags(lexed: Seq<Seq<Diagnostic>>, parsed: Seq<Seq<Diagnostic>>) -> Seq<Diagnostic>
    decreases lexed.len(),
{
    if lexed.len() == 0 {
        Seq::empty()
    } else {
        unit_diags(lexed.drop_last(), parsed.drop_last()) + lexed.last() + parsed.last()
    }
}

/// What one file gives the unit: the tokens and diagnostics the lexer makes
/// of its text placed at `base`, and what parsing those tokens gives.
pub open spec fn file_read(
    text: Seq<char>,
    base: int,
    tokens: Seq<Token>,
    lexed: Seq<Diagnostic>,
    tree: Ast,
    parsed: Seq<Diagnostic>,
) -> bool {
    &&& token_views(tokens) == lex_from(encode_utf8(text), 0, base).0
    &&& diag_views(lexed) == lex_from(encode_utf8(text), 0, base).1
    &&& parse_result(tokens, tree, parsed)
}

/// The unit's tree and diagnostics are its files', each file read on its
/// own at its base, joined in file order.
pub open spec fn read_files(
    files: Seq<(String, String)>,
    trees: Seq<Ast>,
    tokens: Seq<Seq<Token>>,
    lexed: Seq<Seq<Diagnostic>>,
    parsed: Seq<Seq<Diagnostic>>,
    ast: Ast,
    diags: Seq<Diagnostic>,
) -> bool {
    &&& tokens.len() == files.len()
    &&& lexed.len() == files.len()
    &&& parsed.len() == files.len()
    &&& assembled(files, trees, ast)
    &&& forall|i: int|
        0 <= i < files.len() ==> file_read(
            files[i].1@,
            file_base(files, i),
            #[trigger] tokens[i],
            lexed[i],
            trees[i],
            parsed[i],
        )
    &&& diags == unit_diags(lexed, parsed)
}

impl Unit {
    /// Assembles a unit from named sources, in the order given.
    ///
    /// Order decides only what a diagnostic list looks like: defs resolve
    /// across the whole unit regardless of which file they are in.
    pub fn parse(files: Vec<(String, String)>) -> (u: Unit)
        requires
            unit_size(files@) <= u32::MAX,
        ensures
            u.sources.wf(),
            u.sources.files_view().len() == files@.len(),
            forall|i: int|
                0 <= i < files@.len() ==> {
                    &&& (#[trigger] u.sources.files_view()[i]).name_view() == files@[i].0@
                    &&& u.sources.files_view()[i].text_view() == files@[i].1@
                },
            forall|i: int| 0 <= i < u.diags@.len() ==> (#[trigger] u.diags@[i]).is_error_spec(),
            u.diags@.len() == 0 <==> forall|i: int|
                0 <= i < files@.len() ==> #[trigger] file_clean(files@[i].1@, file_base(files@, i)),
            u.diags@.len() == 0 ==> exists|trees: Seq<Ast>| #[trigger] joined(files@, trees, u.ast),
            u.diags@.len() == 0 ==> forall|trees: Seq<Ast>| #[trigger]
                spelled_files(files@, trees) ==> ast_tree(u.ast) == joined_tree(trees),
            u.diags@.len() == 0 ==> holes_free(u.ast),
            exists|trees: Seq<Ast>| #[trigger] assembled(files@, trees, u.ast),
            exists|trees: Seq<Ast>, tokens: Seq<Seq<Token>>, lexed: Seq<Seq<Diagnostic>>, parsed: Seq<Seq<Diagnostic>>|
                #[trigger] read_files(files@, trees, tokens, lexed, parsed, u.ast, u.diags@),
    {
        let mut sources = SourceMap::new();
        let mut ast = Ast { params: Vec::new(), defs: Vec::new(), rules: Vec::new() };
        let mut diags: Vec<Diagnostic> = Vec::new();
        let ghost all = files@;
        let ghost mut trees: Seq<Ast> = Seq::empty();
        let ghost mut toks_s: Seq<Seq<Token>> = Seq::empty();
        let ghost mut lexed_s: Seq<Seq<Diagnostic>> = Seq::empty();
        let ghost mut parsed_s: Seq<Seq<Diagnostic>> = Seq::empty();
        let mut pending = files;
        let mut i: usize = 0;
        assert(all.len() == pending.len());
        while pending.len() > 0
            invariant
                i <= all.len(),
                all.len() <= usize::MAX,
                unit_size(all) <= u32::MAX,
                pending@ == all.skip(i as int),
                sources.wf(),
                sources.next_base() == unit_size(all.take(i as int)),
                sources.files_view().len() == i,
                forall|j: int|
                    0 <= j < i ==> {
                        &&& (#[trigger] sources.files_view()[j]).name_view() == all[j].0@
                        &&& sources.files_view()[j].text_view() == all[j].1@
                    },
                forall|j: int| 0 <= j < diags@.len() ==> (#[trigger] diags@[j]).is_error_spec(),
                diags@.len() == 0 <==> forall|j: int|
                    0 <= j < i ==> #[trigger] file_clean(all[j].1@, file_base(all, j)),
                trees.len() == i,
                toks_s.len() == i,
                lexed_s.len() == i,
                parsed_s.len() == i,
                forall|j: int|
                    0 <= j < i ==> file_read(
                        all[j].1@,
                        file_base(all, j),
                        #[trigger] toks_s[j],
                        lexed_s[j],
                        trees[j],
                        parsed_s[j],
                    ),
                diags@ == unit_diags(lexed_s, parsed_s),
                ast.params@ == all_params(trees),
                ast.defs@ == all_defs(trees),
                ast.rules@ == all_rules(trees),
                forall|j: int, a: Ast|
                    0 <= j < i && #[trigger] spells_program(
                        lexed_kinds(all[j].1@, file_base(all, j)),
                        a,
                    ) ==> ast_tree(trees[j]) == ast_tree(a),
                diags@.len() == 0 ==> forall|j: int|
                    0 <= j < i ==> spells_program(
                        lexed_kinds(all[j].1@, file_base(all, j)),
                        #[trigger] trees[j],
                    ),
            decreases pending@.len(),
        {
            let (name, text) = pending.remove(0);
            proof {
                assert(all[i as int] == (name, text));
                assert(all.skip(i as int).remove(0) =~= all.skip(i as int + 1));
                assert(all.take(i as int + 1).drop_last() =~= all.take(i as int));
                lemma_unit_size_prefix(all, i as int + 1);
            }
            let base = sources.add(name, text);
            let file_text = sources.files().last().unwrap().text();
            let (tokens, lex_diags) = crate::lexer::lex_at(file_text, base);
            let (file_ast, parse_diags) = crate::parser::parse(tokens.as_slice());
            let ghost before = diags@;
            let ghost old_trees = trees;
            let ghost ld = lex_diags@;
            let ghost pd = parse_diags@;
            let ghost tk = tokens@;
            proof {
                let kv = lexed_kinds(all[i as int].1@, file_base(all, i as int));
                assert(kinds(tokens@) == kv);
                assert(diag_views(lex_diags@).len() == lex_diags@.len());
            }
            append_all(&mut diags, lex_diags);
            append_all(&mut diags, parse_diags);
            proof {
                let kv = lexed_kinds(all[i as int].1@, file_base(all, i as int));
                assert(file_clean(all[i as int].1@, file_base(all, i as int)) <==> (
                lex_diags@.len() == 0 && parse_diags@.len() == 0));
                if diags@.len() == 0 {
                    assert(spells_program(kv, file_ast));
                }
                assert(file_read(all[i as int].1@, file_base(all, i as int), tk, ld, file_ast, pd));
                let ls = lexed_s.push(ld);
                let ps = parsed_s.push(pd);
                assert(ls.drop_last() =~= lexed_s);
                assert(ps.drop_last() =~= parsed_s);
                assert(diags@ =~= unit_diags(ls, ps));
                let old_toks = toks_s;
                let old_lexed = lexed_s;
                let old_parsed = parsed_s;
                toks_s = toks_s.push(tk);
                lexed_s = ls;
                parsed_s = ps;
                trees = trees.push(file_ast);
                assert forall|j: int| 0 <= j < i + 1 implies file_read(
                    all[j].1@,
                    file_base(all, j),
                    #[trigger] toks_s[j],
                    lexed_s[j],
                    trees[j],
                    parsed_s[j],
                ) by {
                    if j < i {
                        assert(toks_s[j] == old_toks[j]);
                        assert(lexed_s[j] == old_lexed[j]);
                        assert(parsed_s[j] == old_parsed[j]);
                        assert(trees[j] == old_trees[j]);
                    }
                }
            }
            let Ast { params, defs, rules } = file_ast;
            let mut params = params;
            let mut defs = defs;
            let mut rules = rules;
            ast.params.append(&mut params);
            ast.defs.append(&mut defs);
            ast.rules.append(&mut rules);
            proof {
                assert(trees.drop_last() =~= old_trees);
                if diags@.len() == 0 {
                    assert forall|j: int| 0 <= j < i + 1 implies spells_program(
                        lexed_kinds(all[j].1@, file_base(all, j)),
                        #[trigger] trees[j],
                    ) by {
                        if j < i {
                            assert(trees[j] == old_trees[j]);
                        }
                    }
                }
                assert forall|j: int, a: Ast|
                    0 <= j < i + 1 && #[trigger] spells_program(
                        lexed_kinds(all[j].1@, file_base(all, j)),
                        a,
                    ) implies ast_tree(trees[j]) == ast_tree(a) by {
                    if j < i {
                        assert(trees[j] == old_trees[j]);
                    }
                }
            }
            i += 1;
        }
        let u = Unit { ast, sources, diags };
        proof {
            assert(assembled(all, trees, u.ast));
            assert(read_files(all, trees, toks_s, lexed_s, parsed_s, u.ast, u.diags@));
            if u.diags@.len() == 0 {
                assert(joined(all, trees, u.ast));
                assert forall|j: int| 0 <= j < trees.len() implies holes_free(#[trigger] trees[j]) by {
                    lemma_program_whole(lexed_kinds(all[j].1@, file_base(all, j)), trees[j]);
                }
                lemma_joined_whole(trees);
                assert forall|trees2: Seq<Ast>| #[trigger] spelled_files(all, trees2) implies ast_tree(
                    u.ast,
                ) == joined_tree(trees2) by {
                    assert forall|j: int| 0 <= j < trees.len() implies ast_tree(#[trigger] trees[j])
                        == ast_tree(trees2[j]) by {
                        assert(spells_program(lexed_kinds(all[j].1@, file_base(all, j)), trees2[j]));
                    }
                    lemma_joined_tree(trees, trees2);
                }
            }
        }
        u
    }
}

proof fn lemma_unit_size_prefix(files: Seq<(String, String)>, n: int)
    requires
        0 <= n <= files.len(),
    ensures
        unit_size(files.take(n)) <= unit_size(files),
    decreases files.len(),
{
    if n < files.len() {
        assert(files.drop_last().take(n) =~= files.take(n));
        lemma_unit_size_prefix(files.drop_last(), n);
    } else {
        assert(files.take(n) =~= files);
    }
}

fn append_all(into: &mut Vec<Diagnostic>, from: Vec<Diagnostic>)
    requires
        forall|j: int| 0 <= j < old(into)@.len() ==> (#[trigger] old(into)@[j]).is_error_spec(),
        forall|j: int| 0 <= j < from@.len() ==> (#[trigger] from@[j]).is_error_spec(),
    ensures
        final(into)@ == old(into)@ + from@,
        forall|j: int| 0 <= j < final(into)@.len() ==> (#[trigger] final(into)@[j]).is_error_spec(),
{
    let ghost added = from@;
    let mut from = from;
    into.append(&mut from);
    assert(into@ == old(into)@ + added);
    assert forall|j: int| 0 <= j < into@.len() implies (#[trigger] into@[j]).is_error_spec() by {
        if j >= old(into)@.len() {
            assert(into@[j] == added[j - old(into)@.len()]);
        }
    }
}

/// Trees with no holes, joined, have none.
proof fn lemma_joined_whole(trees: Seq<Ast>)
    requires
        forall|j: int| 0 <= j < trees.len() ==> holes_free(#[trigger] trees[j]),
    ensures
        forall|k: int| 0 <= k < all_defs(trees).len() ==> whole(#[trigger] all_defs(trees)[k].body),
        forall|k: int| 0 <= k < all_rules(trees).len() ==> rule_whole(#[trigger] all_rules(trees)[k]),
    decreases trees.len(),
{
    if trees.len() > 0 {
        let front = trees.drop_last();
        assert forall|j: int| 0 <= j < front.len() implies holes_free(#[trigger] front[j]) by {
            assert(front[j] == trees[j]);
        }
        lemma_joined_whole(front);
        let last = trees.last();
        assert(holes_free(trees[trees.len() - 1]));
        assert forall|k: int| 0 <= k < all_defs(trees).len() implies whole(#[trigger] all_defs(trees)[k].body) by {
            if k >= all_defs(front).len() {
                assert(all_defs(trees)[k] == last.defs@[k - all_defs(front).len()]);
            } else {
                assert(all_defs(trees)[k] == all_defs(front)[k]);
            }
        }
        assert forall|k: int| 0 <= k < all_rules(trees).len() implies rule_whole(#[trigger] all_rules(trees)[k]) by {
            if k >= all_rules(front).len() {
                assert(all_rules(trees)[k] == last.rules@[k - all_rules(front).len()]);
            } else {
                assert(all_rules(trees)[k] == all_rules(front)[k]);
            }
        }
    }
}

} // verus!
