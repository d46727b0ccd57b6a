//! Printing the lowered rule set back as `.vy`.
//!
//! Not a formatter: this prints the rule set after lowering and specialising —
//! numbers folded, doctrine-settled gates gone, `count(powr)` now
//! `building-count(powr)`. What a reader sees is what runs.
use crate::ast::{BinOp, UnOp};
use crate::emit::doctrine_free;
use crate::emit::expr::{category_str, category_text, member_str, member_text, action_name_text, action_str, PREC_ADD, PREC_AND, PREC_ATOM, PREC_CMP, PREC_MUL, PREC_OR, PREC_UNARY};
use crate::env::{self, predicate_name, predicate_ret};
use crate::ir::{Ir, IrAction, IrExpr, IrExprKind, IrRule};
use crate::text::{int_text, joined, push_int};
use crate::types::Type;
use crate::grammar::{binop_level, binop_tag};
use crate::lexer::lex_from;
use crate::token::view_tag;
use vstd::prelude::*;
use vstd::string::*;
use vstd::utf8::*;

verus! {

/// The loosest position: a whole `require`.
pub const PREC_LOWEST: u8 = 0;

pub open spec fn binding_power_spec(op: BinOp) -> u8 {
    match op {
        BinOp::Or => PREC_OR,
        BinOp::And => PREC_AND,
        BinOp::Eq | BinOp::NotEq | BinOp::Lt | BinOp::LtEq | BinOp::Gt | BinOp::GtEq => PREC_CMP,
        BinOp::Add | BinOp::Sub => PREC_ADD,
        BinOp::Mul | BinOp::Div => PREC_MUL,
    }
}

/// How tightly an operator binds in the language's grammar.
pub fn binding_power(op: BinOp) -> (p: u8)
    ensures
        p == binding_power_spec(op),
{
    match op {
        BinOp::Or => PREC_OR,
        BinOp::And => PREC_AND,
        BinOp::Eq | BinOp::NotEq | BinOp::Lt | BinOp::LtEq | BinOp::Gt | BinOp::GtEq => PREC_CMP,
        BinOp::Add | BinOp::Sub => PREC_ADD,
        BinOp::Mul | BinOp::Div => PREC_MUL,
    }
}

pub open spec fn spelling_spec(op: BinOp) -> Seq<char> {
    match op {
        BinOp::Or => "or"@,
        BinOp::And => "and"@,
        BinOp::Eq => "=="@,
        BinOp::NotEq => "!="@,
        BinOp::Lt => "<"@,
        BinOp::LtEq => "<="@,
        BinOp::Gt => ">"@,
        BinOp::GtEq => ">="@,
        BinOp::Add => "+"@,
        BinOp::Sub => "-"@,
        BinOp::Mul => "*"@,
        BinOp::Div => "/"@,
    }
}

/// The printer binds operators as the grammar does: one operator binds
/// tighter than another exactly when the parser puts it at a tighter
/// level, and every binary operator binds looser than a prefix one.
pub proof fn lemma_binding_follows_the_grammar(a: BinOp, b: BinOp)
    ensures
        (binding_power_spec(a) < binding_power_spec(b)) == (binop_level(a) < binop_level(b)),
        (binding_power_spec(a) == binding_power_spec(b)) == (binop_level(a) == binop_level(b)),
        binding_power_spec(a) < PREC_UNARY,
        PREC_LOWEST < binding_power_spec(a),
{
}

/// Each operator is printed as what the lexer reads as that operator: its
/// spelling, read on its own at any offset, is exactly one token, with that
/// operator's tag, and nothing to report. So printing an operator and
/// reading it back gives the same operator.
pub proof fn lemma_spelling_reads_back(op: BinOp, base: int)
    ensures
        lex_from(encode_utf8(spelling_spec(op)), 0, base).0.len() == 2,
        view_tag(lex_from(encode_utf8(spelling_spec(op)), 0, base).0[0].0) == binop_tag(op),
        lex_from(encode_utf8(spelling_spec(op)), 0, base).0[0].2 == base + spelling_spec(op).len(),
        lex_from(encode_utf8(spelling_spec(op)), 0, base).1.len() == 0,
{
    reveal_strlit("or");
    reveal_strlit("and");
    reveal_strlit("==");
    reveal_strlit("!=");
    reveal_strlit("<");
    reveal_strlit("<=");
    reveal_strlit(">");
    reveal_strlit(">=");
    reveal_strlit("+");
    reveal_strlit("-");
    reveal_strlit("*");
    reveal_strlit("/");
    reveal_strlit("rule");
    reveal_strlit("priority");
    reveal_strlit("category");
    reveal_strlit("exclusive");
    reveal_strlit("do");
    reveal_strlit("require");
    reveal_strlit("because");
    reveal_strlit("let");
    let cs = spelling_spec(op);
    assert(is_ascii_chars(cs));
    is_ascii_chars_encode_utf8(cs);
    let b = encode_utf8(cs);
    assert(b.subrange(0, b.len() as int) =~= b);
    encode_utf8_decode_utf8(cs);
    reveal_with_fuel(lex_from, 3);
    reveal_with_fuel(crate::lexer::ident_end, 4);
}

/// An operator as the language spells it.
pub fn spelling(op: BinOp) -> (s: &'static str)
    ensures
        s@ == spelling_spec(op),
{
    match op {
        BinOp::Or => "or",
        BinOp::And => "and",
        BinOp::Eq => "==",
        BinOp::NotEq => "!=",
        BinOp::Lt => "<",
        BinOp::LtEq => "<=",
        BinOp::Gt => ">",
        BinOp::GtEq => ">=",
        BinOp::Add => "+",
        BinOp::Sub => "-",
        BinOp::Mul => "*",
        BinOp::Div => "/",
    }
}

/// A member in the language's spelling: kebab, and no quotes.
pub fn member(domain: crate::types::Domain, index: u32) -> (s: String)
    ensures
        s@ == member_text(domain, index),
{
    String::from_str(member_str(domain, index))
}

/// Double quotes turned single.
pub open spec fn unquoted(s: Seq<char>) -> Seq<char> {
    s.map_values(
        |c: char|
            if c == '"' {
                '\''
            } else {
                c
            },
    )
}

pub open spec fn quote_spec(s: Seq<char>) -> Seq<char> {
    "\""@ + unquoted(s) + "\""@
}

/// `because` is the only string in the language, and it has no escapes, so a
/// double quote inside one becomes a single quote.
pub fn quote(s: &str) -> (q: String)
    ensures
        q@ == quote_spec(s@),
{
    let n = s.unicode_len();
    let mut out = String::from_str("\"");
    let ghost start = out@;
    let mut i: usize = 0;
    assert(s@.take(0) =~= Seq::<char>::empty());
    while i < n
        invariant
            n == s@.len(),
            i <= n,
            out@ == start + unquoted(s@.take(i as int)),
        decreases n - i,
    {
        proof {
            reveal_strlit("'");
        }
        let c = s.get_char(i);
        if c == '"' {
            out.append("'");
        } else {
            out.append(s.substring_char(i, i + 1));
            assert(s@.subrange(i as int, i as int + 1) =~= seq![c]);
        }
        assert(unquoted(s@.take(i as int + 1)) =~= unquoted(s@.take(i as int)) + seq![
            if c == '"' {
                '\''
            } else {
                c
            },
        ]);
        i += 1;
    }
    assert(s@.take(n as int) =~= s@);
    out.append("\"");
    out
}

/// An expression as `.vy`, inside a position that binds as tightly as
/// `parent`. `let` does not survive lowering, so a binding's value takes its
/// place; `bound` is how many of the rule's bindings it may still refer to.
pub open spec fn vy_text(e: IrExpr, lets: Seq<IrExpr>, bound: int, parent: int) -> Seq<char>
    decreases bound, e,
{
    match e.kind {
        IrExprKind::Int(n) => int_text(n as int),
        IrExprKind::Float(f) => f@,
        IrExprKind::Bool(b) => if b {
            "true"@
        } else {
            "false"@
        },
        IrExprKind::Member(d, i) => member_text(d, i),
        IrExprKind::Binding(j) => if j < bound {
            vy_text(lets[j as int], lets, j as int, parent)
        } else {
            Seq::empty()
        },
        IrExprKind::Predicate(id, args) => {
            let call = if args@.len() > 0 {
                predicate_name(id) + "("@ + vy_args(args@, lets, bound) + ")"@
            } else {
                predicate_name(id)
            };
            // A collection is only ever counted, and `count(...)` is how the
            // language says that.
            if predicate_ret(id) == Type::Collection {
                "count("@ + call + ")"@
            } else {
                call
            }
        },
        IrExprKind::Unary(op, x) => {
            let prefix = match op {
                UnOp::Not => "not "@,
                UnOp::Neg => "-"@,
                UnOp::Exists => "exists "@,
            };
            let inner = prefix + vy_text(*x, lets, bound, PREC_UNARY as int);
            if parent > PREC_UNARY as int {
                "("@ + inner + ")"@
            } else {
                inner
            }
        },
        IrExprKind::Binary(op, l, r) => {
            let p = binding_power_spec(op) as int;
            let inner = vy_text(*l, lets, bound, p) + " "@ + spelling_spec(op) + " "@ + vy_text(
                *r,
                lets,
                bound,
                p + 1,
            );
            if p < parent {
                "("@ + inner + ")"@
            } else {
                inner
            }
        },
        IrExprKind::Param(_) => Seq::empty(),
        IrExprKind::Builtin(_, _) => Seq::empty(),
    }
}

/// Arguments, separated by a comma and a space.
pub open spec fn vy_args(args: Seq<IrExpr>, lets: Seq<IrExpr>, bound: int) -> Seq<char>
    decreases bound, args,
{
    if args.len() == 0 {
        Seq::empty()
    } else if args.len() == 1 {
        vy_text(args[0], lets, bound, PREC_ATOM as int)
    } else {
        vy_args(args.subrange(0, args.len() - 1), lets, bound) + ", "@ + vy_text(
            args[args.len() - 1],
            lets,
            bound,
            PREC_ATOM as int,
        )
    }
}

fn print_expr(e: &IrExpr, lets: &Vec<IrExpr>, bound: usize, parent: u8, out: &mut String)
    requires
        bound <= lets@.len(),
    ensures
        final(out)@ == old(out)@ + vy_text(*e, lets@, bound as int, parent as int),
    decreases bound, e, 1nat,
{
    proof {
        reveal_strlit("true");
        reveal_strlit("false");
    }
    match &e.kind {
        IrExprKind::Int(n) => push_int(out, *n),
        IrExprKind::Float(f) => out.append(f.as_str()),
        IrExprKind::Bool(b) => out.append(
            if *b {
                "true"
            } else {
                "false"
            },
        ),
        IrExprKind::Member(d, i) => out.append(member_str(*d, *i)),
        IrExprKind::Binding(slot) => {
            if (*slot as usize) < bound {
                print_expr(&lets[*slot as usize], lets, *slot as usize, parent, out);
            } else {
                assert(out@ =~= old(out)@ + Seq::empty());
            }
        },
        IrExprKind::Predicate(..) => print_predicate(e, lets, bound, out),
        IrExprKind::Unary(..) => print_unary(e, lets, bound, parent, out),
        IrExprKind::Binary(..) => print_binary(e, lets, bound, parent, out),
        IrExprKind::Param(_) | IrExprKind::Builtin(..) => {
            assert(out@ =~= old(out)@ + Seq::empty());
        },
    }
}

#[verifier::loop_isolation(false)]
fn print_predicate(e: &IrExpr, lets: &Vec<IrExpr>, bound: usize, out: &mut String)
    requires
        bound <= lets@.len(),
        e.kind is Predicate,
    ensures
        final(out)@ == old(out)@ + vy_text(*e, lets@, bound as int, 0),
    decreases bound, e, 0nat,
{
    let (id, args) = match &e.kind {
        IrExprKind::Predicate(id, args) => (id, args),
        _ => {
            return;
        },
    };
    let ghost before = out@;
    let counted = matches!(id.signature().ret, Type::Collection);
    if counted {
        out.append("count(");
    }
    out.append(id.name());
    if args.len() > 0 {
        out.append("(");
        let ghost start = out@;
        let mut i: usize = 0;
        while i < args.len()
            invariant
                i <= args@.len(),
                out@ == start + vy_args(args@.subrange(0, i as int), lets@, bound as int),
            decreases args@.len() - i,
        {
            assert(args@.subrange(0, i as int + 1).subrange(0, i as int) =~= args@.subrange(0, i as int));
            assert(args@.subrange(0, i as int + 1)[i as int] == args@[i as int]);
            if i > 0 {
                out.append(", ");
            }
            print_expr(&args[i], lets, bound, PREC_ATOM, out);
            proof {
                if i == 0 {
                    assert(out@ =~= start + vy_args(args@.subrange(0, 1), lets@, bound as int));
                } else {
                    assert(out@ =~= start + vy_args(args@.subrange(0, i as int + 1), lets@, bound as int));
                }
            }
            i += 1;
        }
        assert(args@.subrange(0, args@.len() as int) =~= args@);
        out.append(")");
    }
    if counted {
        out.append(")");
    }
    proof {
        let call = if args@.len() > 0 {
            predicate_name(*id) + "("@ + vy_args(args@, lets@, bound as int) + ")"@
        } else {
            predicate_name(*id)
        };
        if counted {
            assert(out@ =~= before + ("count("@ + call + ")"@));
        } else {
            assert(out@ =~= before + call);
        }
    }
}

fn print_unary(e: &IrExpr, lets: &Vec<IrExpr>, bound: usize, parent: u8, out: &mut String)
    requires
        bound <= lets@.len(),
        e.kind is Unary,
    ensures
        final(out)@ == old(out)@ + vy_text(*e, lets@, bound as int, parent as int),
    decreases bound, e, 0nat,
{
    let (op, operand) = match &e.kind {
        IrExprKind::Unary(op, operand) => (op, operand),
        _ => {
            return;
        },
    };
    let ghost before = out@;
    let wrap = parent > PREC_UNARY;
    if wrap {
        out.append("(");
    }
    let ghost mid = out@;
    match op {
        UnOp::Not => out.append("not "),
        UnOp::Neg => out.append("-"),
        UnOp::Exists => out.append("exists "),
    }
    let ghost prefix = match *op {
        UnOp::Not => "not "@,
        UnOp::Neg => "-"@,
        UnOp::Exists => "exists "@,
    };
    assert(out@ == mid + prefix);
    print_expr(operand, lets, bound, PREC_UNARY, out);
    if wrap {
        out.append(")");
    }
    proof {
        let inner = prefix + vy_text(**operand, lets@, bound as int, PREC_UNARY as int);
        if wrap {
            assert(out@ =~= before + ("("@ + inner + ")"@));
        } else {
            assert(out@ =~= before + inner);
        }
    }
}

fn print_binary(e: &IrExpr, lets: &Vec<IrExpr>, bound: usize, parent: u8, out: &mut String)
    requires
        bound <= lets@.len(),
        e.kind is Binary,
    ensures
        final(out)@ == old(out)@ + vy_text(*e, lets@, bound as int, parent as int),
    decreases bound, e, 0nat,
{
    let (op, l, r) = match &e.kind {
        IrExprKind::Binary(op, l, r) => (op, l, r),
        _ => {
            return;
        },
    };
    let ghost before = out@;
    let prec = binding_power(*op);
    let wrap = prec < parent;
    if wrap {
        out.append("(");
    }
    print_expr(l, lets, bound, prec, out);
    out.append(" ");
    out.append(spelling(*op));
    out.append(" ");
    print_expr(r, lets, bound, prec + 1, out);
    if wrap {
        out.append(")");
    }
    proof {
        let p = prec as int;
        let inner = vy_text(**l, lets@, bound as int, p) + " "@ + spelling_spec(*op) + " "@ + vy_text(
            **r,
            lets@,
            bound as int,
            p + 1,
        );
        if wrap {
            assert(out@ =~= before + ("("@ + inner + ")"@));
        } else {
            assert(out@ =~= before + inner);
        }
    }
}

/// The action in the language's own form.
pub open spec fn vy_action_text(a: IrAction, lets: Seq<IrExpr>) -> Seq<char> {
    if a.args@.len() == 0 {
        action_name_text(a.id.0)
    } else {
        action_name_text(a.id.0) + "("@ + joined(
            a.args@.map_values(|x: IrExpr| vy_text(x, lets, lets.len() as int, PREC_ATOM as int)),
            ", "@,
        ) + ")"@
    }
}

/// One `require` line per conjunct, or `require true` for a rule with none —
/// vacuously true, and legal, but better said than left to read as a
/// truncation.
pub open spec fn requires_text(r: IrRule) -> Seq<char> {
    if r.requires@.len() == 0 {
        "  require true\n"@
    } else {
        joined(
            r.requires@.map_values(
                |c: IrExpr| "  require "@ + vy_text(c, r.lets@, r.lets@.len() as int, PREC_LOWEST as int) + "\n"@,
            ),
            Seq::empty(),
        )
    }
}

/// A rule as `.vy`.
pub open spec fn rule_text(r: IrRule, priority: i64) -> Seq<char> {
    "rule "@ + r.name@ + " {\n"@ + "  priority "@ + int_text(priority as int) + "\n"@ + "  category "@
        + category_text(r.category.0) + (if r.exclusive {
        " exclusive"@
    } else {
        Seq::empty()
    }) + "\n"@ + (match r.because {
        Some(why) => "  because "@ + quote_spec(why@) + "\n"@,
        None => Seq::empty(),
    }) + "  do "@ + vy_action_text(r.action, r.lets@) + "\n"@ + requires_text(r) + "}"@
}

/// A rule whose doctrine has been folded in, as far as printing needs: its
/// priority is a number and nothing reads a parameter.
pub open spec fn printable(r: IrRule) -> bool {
    &&& r.priority.kind is Int
    &&& forall|i: int| 0 <= i < r.requires@.len() ==> #[trigger] doctrine_free(r.requires@[i])
    &&& forall|i: int| 0 <= i < r.lets@.len() ==> #[trigger] doctrine_free(r.lets@[i])
    &&& forall|i: int| 0 <= i < r.action.args@.len() ==> #[trigger] doctrine_free(r.action.args@[i])
}

pub open spec fn printable_ir(ir: Ir) -> bool {
    forall|k: int| 0 <= k < ir.rules@.len() ==> #[trigger] printable(ir.rules@[k])
}

/// A rule's priority, once folded.
pub open spec fn priority_of(r: IrRule) -> i64 {
    match r.priority.kind {
        IrExprKind::Int(n) => n,
        _ => 0,
    }
}

fn print_action(a: &IrAction, lets: &Vec<IrExpr>, out: &mut String)
    ensures
        final(out)@ == old(out)@ + vy_action_text(*a, lets@),
{
    let ghost before = out@;
    out.append(action_str(a.id.0));
    if a.args.len() == 0 {
        return;
    }
    out.append("(");
    let ghost start = out@;
    let ghost parts = a.args@.map_values(|x: IrExpr| vy_text(x, lets@, lets@.len() as int, PREC_ATOM as int));
    let mut i: usize = 0;
    while i < a.args.len()
        invariant
            i <= a.args@.len(),
            parts == a.args@.map_values(|x: IrExpr| vy_text(x, lets@, lets@.len() as int, PREC_ATOM as int)),
            out@ == start + joined(parts.take(i as int), ", "@),
        decreases a.args@.len() - i,
    {
        assert(parts.take(i as int + 1).drop_last() =~= parts.take(i as int));
        if i > 0 {
            out.append(", ");
        }
        print_expr(&a.args[i], lets, lets.len(), PREC_ATOM, out);
        proof {
            if i == 0 {
                assert(parts.take(1).len() == 1);
                assert(out@ =~= start + joined(parts.take(1), ", "@));
            } else {
                assert(out@ =~= start + joined(parts.take(i as int + 1), ", "@));
            }
        }
        i += 1;
    }
    assert(parts.take(a.args@.len() as int) =~= parts);
    out.append(")");
    assert(out@ =~= before + vy_action_text(*a, lets@));
}

fn print_requires(r: &IrRule, out: &mut String)
    ensures
        final(out)@ == old(out)@ + requires_text(*r),
{
    if r.requires.len() == 0 {
        out.append("  require true\n");
        return;
    }
    let ghost start = out@;
    let ghost parts = r.requires@.map_values(
        |c: IrExpr| "  require "@ + vy_text(c, r.lets@, r.lets@.len() as int, PREC_LOWEST as int) + "\n"@,
    );
    let mut i: usize = 0;
    proof {
        reveal_strlit("");
    }
    while i < r.requires.len()
        invariant
            i <= r.requires@.len(),
            parts == r.requires@.map_values(
                |c: IrExpr| "  require "@ + vy_text(c, r.lets@, r.lets@.len() as int, PREC_LOWEST as int) + "\n"@,
            ),
            out@ == start + joined(parts.take(i as int), Seq::empty()),
        decreases r.requires@.len() - i,
    {
        assert(parts.take(i as int + 1).drop_last() =~= parts.take(i as int));
        let ghost here = out@;
        out.append("  require ");
        print_expr(&r.requires[i], &r.lets, r.lets.len(), PREC_LOWEST, out);
        out.append("\n");
        proof {
            assert(out@ =~= here + parts[i as int]);
            if i == 0 {
                assert(parts.take(1).len() == 1);
                assert(out@ =~= start + joined(parts.take(1), Seq::empty()));
            } else {
                assert(out@ =~= start + joined(parts.take(i as int + 1), Seq::empty()));
            }
        }
        i += 1;
    }
    assert(parts.take(r.requires@.len() as int) =~= parts);
}

fn print_rule(r: &IrRule) -> (s: String)
    requires
        printable(*r),
    ensures
        s@ == rule_text(*r, priority_of(*r)),
{
    let priority = match &r.priority.kind {
        IrExprKind::Int(n) => *n,
        _ => 0,
    };
    let mut out = String::from_str("rule ");
    let ghost s0 = out@;
    out.append(r.name.as_str());
    out.append(" {\n");
    out.append("  priority ");
    push_int(&mut out, priority);
    out.append("\n");
    out.append("  category ");
    out.append(category_str(r.category.0));
    let ghost s1 = out@;
    if r.exclusive {
        out.append(" exclusive");
    }
    let ghost s2 = out@;
    out.append("\n");
    let ghost s3 = out@;
    match &r.because {
        Some(why) => {
            out.append("  because ");
            out.append(quote(why.as_str()).as_str());
            out.append("\n");
        },
        None => {},
    }
    let ghost s4 = out@;
    out.append("  do ");
    print_action(&r.action, &r.lets, &mut out);
    out.append("\n");
    print_requires(r, &mut out);
    out.append("}");
    proof {
        let excl = if r.exclusive {
            " exclusive"@
        } else {
            Seq::empty()
        };
        assert(s2 =~= s1 + excl);
        let why = match &r.because {
            Some(w) => "  because "@ + quote_spec(w@) + "\n"@,
            None => Seq::empty(),
        };
        assert(s4 =~= s3 + why);
        assert(out@ =~= rule_text(*r, priority_of(*r)));
    }
    out
}

/// One printed rule per rule, in order.
pub fn emit(ir: &Ir) -> (out: Vec<String>)
    requires
        printable_ir(*ir),
    ensures
        out@.len() == ir.rules@.len(),
        forall|k: int| 0 <= k < out@.len() ==> #[trigger] out@[k]@ == rule_text(ir.rules@[k], priority_of(ir.rules@[k])),
{
    let mut out: Vec<String> = Vec::new();
    let mut k: usize = 0;
    while k < ir.rules.len()
        invariant
            k <= ir.rules@.len(),
            printable_ir(*ir),
            out@.len() == k,
            forall|j: int| 0 <= j < k ==> #[trigger] out@[j]@ == rule_text(ir.rules@[j], priority_of(ir.rules@[j])),
        decreases ir.rules@.len() - k,
    {
        out.push(print_rule(&ir.rules[k]));
        k += 1;
    }
    out
}

/// The whole set, as a file that parses: the rules separated by blank lines.
pub fn emit_file(ir: &Ir) -> (s: String)
    requires
        printable_ir(*ir),
    ensures
        s@ == joined(
            ir.rules@.map_values(|r: IrRule| rule_text(r, priority_of(r))),
            "\n\n"@,
        ) + "\n"@,
{
    let rules = emit(ir);
    let ghost parts = ir.rules@.map_values(|r: IrRule| rule_text(r, priority_of(r)));
    let mut out = String::new();
    proof {
        reveal_strlit("");
    }
    let mut i: usize = 0;
    while i < rules.len()
        invariant
            i <= rules@.len(),
            rules@.len() == ir.rules@.len(),
            parts == ir.rules@.map_values(|r: IrRule| rule_text(r, priority_of(r))),
            forall|k: int| 0 <= k < rules@.len() ==> #[trigger] rules@[k]@ == rule_text(ir.rules@[k], priority_of(ir.rules@[k])),
            out@ == joined(parts.take(i as int), "\n\n"@),
        decreases rules@.len() - i,
    {
        assert(parts.take(i as int + 1).drop_last() =~= parts.take(i as int));
        assert(parts[i as int] == rules@[i as int]@);
        if i > 0 {
            out.append("\n\n");
        }
        out.append(rules[i].as_str());
        proof {
            if i == 0 {
                assert(parts.take(1).len() == 1);
                assert(out@ =~= joined(parts.take(1), "\n\n"@));
            } else {
                assert(out@ =~= joined(parts.take(i as int + 1), "\n\n"@));
            }
        }
        i += 1;
    }
    assert(parts.take(rules@.len() as int) =~= parts);
    out.append("\n");
    out
}

/// Whether every rule is in the form printing needs.
pub fn is_printable(ir: &Ir) -> (b: bool)
    ensures
        b == printable_ir(*ir),
{
    let mut k: usize = 0;
    while k < ir.rules.len()
        invariant
            k <= ir.rules@.len(),
            forall|j: int| 0 <= j < k ==> #[trigger] printable(ir.rules@[j]),
        decreases ir.rules@.len() - k,
    {
        let r = &ir.rules[k];
        if !matches!(r.priority.kind, IrExprKind::Int(_)) || !crate::emit::all_free(&r.requires)
            || !crate::emit::all_free(&r.lets) || !crate::emit::all_free(&r.action.args) {
            assert(!printable(ir.rules@[k as int]));
            return false;
        }
        k += 1;
    }
    true
}

} // verus!
