//! Emitting expr source, which Vimy's engine already runs.
//!
//! The one place the engine's spellings appear: the language is uniformly
//! kebab and the conversion happens here, so nothing upstream has to know.
use crate::ast::{BinOp, UnOp};
use crate::emit::{emittable, emittable_ir, RuleSource};
use crate::env::{self, action_count, action_spec, category_count, category_spec, member_count, member_spec, predicate_name, predicate_ret};
use crate::ir::{Ir, IrAction, IrExpr, IrExprKind, IrRule};
use crate::text::{int_text, joined, push_int, str_eq};
use crate::types::{Domain, Type};
use vstd::prelude::*;
use vstd::string::*;

verus! {

// Precedence, matching the grammar. A child is parenthesised when it binds
// looser than the position it sits in.
pub const PREC_OR: u8 = 1;
pub const PREC_AND: u8 = 2;
pub const PREC_CMP: u8 = 3;
pub const PREC_ADD: u8 = 4;
pub const PREC_MUL: u8 = 5;
pub const PREC_UNARY: u8 = 6;
pub const PREC_ATOM: u8 = 7;

pub open spec fn precedence_spec(op: BinOp) -> u8 {
    match op {
        BinOp::Or => PREC_OR,
        BinOp::And => PREC_AND,
        BinOp::Eq | BinOp::NotEq | BinOp::Lt | BinOp::LtEq | BinOp::Gt | BinOp::GtEq => PREC_CMP,
        BinOp::Add | BinOp::Sub => PREC_ADD,
        BinOp::Mul | BinOp::Div => PREC_MUL,
    }
}

/// How tightly an operator binds.
pub fn precedence(op: BinOp) -> (p: u8)
    ensures
        p == precedence_spec(op),
{
    match op {
        BinOp::Or => PREC_OR,
        BinOp::And => PREC_AND,
        BinOp::Eq | BinOp::NotEq | BinOp::Lt | BinOp::LtEq | BinOp::Gt | BinOp::GtEq => PREC_CMP,
        BinOp::Add | BinOp::Sub => PREC_ADD,
        BinOp::Mul | BinOp::Div => PREC_MUL,
    }
}

pub open spec fn operator_spec(op: BinOp) -> Seq<char> {
    match op {
        BinOp::Or => "||"@,
        BinOp::And => "&&"@,
        BinOp::Eq => "=="@,
        BinOp::NotEq => "!="@,
        BinOp::Lt => "<"@,
        BinOp::LtEq => "<="@,
        BinOp::Gt => ">"@,
        BinOp::GtEq => ">="@,
        BinOp::Add => "+"@,
        BinOp::Sub => "-"@,
        BinOp::Mul => "*"@,
        BinOp::Div => "/"@,
    }
}

/// expr binds operators as the language's grammar does, which is also Go's
/// order: `||`, then `&&`, then comparisons, then `+ -`, then `* /`.
pub proof fn lemma_precedence_follows_the_grammar(a: BinOp, b: BinOp)
    ensures
        (precedence_spec(a) < precedence_spec(b)) == (crate::grammar::binop_level(a) < crate::grammar::binop_level(b)),
        (precedence_spec(a) == precedence_spec(b)) == (crate::grammar::binop_level(a) == crate::grammar::binop_level(b)),
        precedence_spec(a) < PREC_UNARY,
{
}

/// expr spells every comparison and arithmetic operator exactly as the
/// language does (see `vy::lemma_spelling_reads_back` for what that is read
/// as), `and` and `or` as Go's `&&` and `||`, and no two operators alike.
pub proof fn lemma_operator_spellings(a: BinOp, b: BinOp)
    ensures
        a != BinOp::And && a != BinOp::Or ==> operator_spec(a) == crate::emit::vy::spelling_spec(a),
        operator_spec(BinOp::And) == "&&"@,
        operator_spec(BinOp::Or) == "||"@,
        operator_spec(a) == operator_spec(b) ==> a == b,
{
    reveal_strlit("||");
    reveal_strlit("&&");
    reveal_strlit("==");
    reveal_strlit("!=");
    reveal_strlit("<");
    reveal_strlit("<=");
    reveal_strlit(">");
    reveal_strlit(">=");
    reveal_strlit("+");
    reveal_strlit("-");
    reveal_strlit("*");
    reveal_strlit("/");
    if operator_spec(a) == operator_spec(b) {
        assert(operator_spec(a).len() == operator_spec(b).len());
        assert(operator_spec(a)[0] == operator_spec(b)[0]);
        if operator_spec(a).len() == 2 {
            assert(operator_spec(a)[1] == operator_spec(b)[1]);
        }
    }
}

/// An operator in expr's spelling.
pub fn operator(op: BinOp) -> (s: &'static str)
    ensures
        s@ == operator_spec(op),
{
    match op {
        BinOp::Or => "||",
        BinOp::And => "&&",
        BinOp::Eq => "==",
        BinOp::NotEq => "!=",
        BinOp::Lt => "<",
        BinOp::LtEq => "<=",
        BinOp::Gt => ">",
        BinOp::GtEq => ">=",
        BinOp::Add => "+",
        BinOp::Sub => "-",
        BinOp::Mul => "*",
        BinOp::Div => "/",
    }
}

pub open spec fn upper(c: char) -> char {
    if c == 'a' {
        'A'
    } else if c == 'b' {
        'B'
    } else if c == 'c' {
        'C'
    } else if c == 'd' {
        'D'
    } else if c == 'e' {
        'E'
    } else if c == 'f' {
        'F'
    } else if c == 'g' {
        'G'
    } else if c == 'h' {
        'H'
    } else if c == 'i' {
        'I'
    } else if c == 'j' {
        'J'
    } else if c == 'k' {
        'K'
    } else if c == 'l' {
        'L'
    } else if c == 'm' {
        'M'
    } else if c == 'n' {
        'N'
    } else if c == 'o' {
        'O'
    } else if c == 'p' {
        'P'
    } else if c == 'q' {
        'Q'
    } else if c == 'r' {
        'R'
    } else if c == 's' {
        'S'
    } else if c == 't' {
        'T'
    } else if c == 'u' {
        'U'
    } else if c == 'v' {
        'V'
    } else if c == 'w' {
        'W'
    } else if c == 'x' {
        'X'
    } else if c == 'y' {
        'Y'
    } else if c == 'z' {
        'Z'
    } else {
        c
    }
}

fn upper_str(c: char) -> (s: &'static str)
    requires
        'a' <= c <= 'z',
    ensures
        s@ == seq![upper(c)],
{
    proof {
        reveal_strlit("A");
        reveal_strlit("B");
        reveal_strlit("C");
        reveal_strlit("D");
        reveal_strlit("E");
        reveal_strlit("F");
        reveal_strlit("G");
        reveal_strlit("H");
        reveal_strlit("I");
        reveal_strlit("J");
        reveal_strlit("K");
        reveal_strlit("L");
        reveal_strlit("M");
        reveal_strlit("N");
        reveal_strlit("O");
        reveal_strlit("P");
        reveal_strlit("Q");
        reveal_strlit("R");
        reveal_strlit("S");
        reveal_strlit("T");
        reveal_strlit("U");
        reveal_strlit("V");
        reveal_strlit("W");
        reveal_strlit("X");
        reveal_strlit("Y");
        reveal_strlit("Z");
    }
    if c == 'a' {
        "A"
    } else if c == 'b' {
        "B"
    } else if c == 'c' {
        "C"
    } else if c == 'd' {
        "D"
    } else if c == 'e' {
        "E"
    } else if c == 'f' {
        "F"
    } else if c == 'g' {
        "G"
    } else if c == 'h' {
        "H"
    } else if c == 'i' {
        "I"
    } else if c == 'j' {
        "J"
    } else if c == 'k' {
        "K"
    } else if c == 'l' {
        "L"
    } else if c == 'm' {
        "M"
    } else if c == 'n' {
        "N"
    } else if c == 'o' {
        "O"
    } else if c == 'p' {
        "P"
    } else if c == 'q' {
        "Q"
    } else if c == 'r' {
        "R"
    } else if c == 's' {
        "S"
    } else if c == 't' {
        "T"
    } else if c == 'u' {
        "U"
    } else if c == 'v' {
        "V"
    } else if c == 'w' {
        "W"
    } else if c == 'x' {
        "X"
    } else if c == 'y' {
        "Y"
    } else if c == 'z' {
        "Z"
    } else {
        "Z"
    }
}

/// Kebab to Pascal case from a point in the name: a hyphen is dropped and
/// the letter after it capitalised.
pub open spec fn pascal_from(s: Seq<char>, capital: bool) -> Seq<char>
    decreases s.len(),
{
    if s.len() == 0 {
        Seq::empty()
    } else if s[0] == '-' {
        pascal_from(s.skip(1), true)
    } else {
        seq![
            if capital {
                upper(s[0])
            } else {
                s[0]
            },
        ] + pascal_from(s.skip(1), false)
    }
}

/// `can-build-role` as `CanBuildRole`.
pub open spec fn pascal_spec(kebab: Seq<char>) -> Seq<char> {
    pascal_from(kebab, true)
}

/// Kebab case to Pascal case.
pub fn pascal_case(kebab: &str) -> (s: String)
    ensures
        s@ == pascal_spec(kebab@),
{
    let n = kebab.unicode_len();
    let mut out = String::new();
    let mut capital = true;
    let mut i: usize = 0;
    proof {
        reveal_strlit("");
        assert(kebab@.skip(0) =~= kebab@);
    }
    while i < n
        invariant
            n == kebab@.len(),
            i <= n,
            out@ + pascal_from(kebab@.skip(i as int), capital) == pascal_spec(kebab@),
        decreases n - i,
    {
        let c = kebab.get_char(i);
        assert(kebab@.skip(i as int).skip(1) =~= kebab@.skip(i as int + 1));
        assert(kebab@.skip(i as int)[0] == c);
        if c == '-' {
            capital = true;
        } else if capital && 'a' <= c && c <= 'z' {
            let ghost before = out@;
            out.append(upper_str(c));
            assert(out@ + pascal_from(kebab@.skip(i as int + 1), false) =~= before + pascal_from(
                kebab@.skip(i as int),
                true,
            ));
            capital = false;
        } else {
            let ghost before = out@;
            let ghost was = capital;
            out.append(kebab.substring_char(i, i + 1));
            assert(kebab@.subrange(i as int, i as int + 1) =~= seq![c]);
            assert(upper(c) == c || !was);
            assert(out@ + pascal_from(kebab@.skip(i as int + 1), false) =~= before + pascal_from(
                kebab@.skip(i as int),
                was,
            ));
            capital = false;
        }
        i += 1;
    }
    assert(out@ =~= pascal_spec(kebab@));
    out
}

/// A predicate in the engine's spelling. Three capitalise an acronym, which
/// nothing recovers from the kebab name.
pub open spec fn go_name_spec(kebab: Seq<char>) -> Seq<char> {
    if kebab == "idle-combat-loaded-apcs"@ {
        "IdleCombatLoadedAPCs"@
    } else if kebab == "idle-empty-apcs"@ {
        "IdleEmptyAPCs"@
    } else if kebab == "idle-engineer-loaded-apcs"@ {
        "IdleEngineerLoadedAPCs"@
    } else {
        pascal_spec(kebab)
    }
}

/// A predicate in the engine's spelling: `can-build-role` becomes
/// `CanBuildRole`.
pub fn go_name(kebab: &str) -> (s: String)
    ensures
        s@ == go_name_spec(kebab@),
{
    if str_eq(kebab, "idle-combat-loaded-apcs") {
        return String::from_str("IdleCombatLoadedAPCs");
    }
    if str_eq(kebab, "idle-empty-apcs") {
        return String::from_str("IdleEmptyAPCs");
    }
    if str_eq(kebab, "idle-engineer-loaded-apcs") {
        return String::from_str("IdleEngineerLoadedAPCs");
    }
    pascal_case(kebab)
}

/// Hyphens as underscores.
pub open spec fn snake(s: Seq<char>) -> Seq<char> {
    s.map_values(
        |c: char|
            if c == '-' {
                '_'
            } else {
                c
            },
    )
}

/// A member's name, or nothing for an index outside its domain.
pub open spec fn member_text(domain: Domain, index: u32) -> Seq<char> {
    if index < member_count(domain) {
        member_spec(domain, index as int)
    } else {
        Seq::empty()
    }
}

/// A member in the engine's spelling. Roles are snake there; the rest are
/// identifiers both sides share.
pub open spec fn wire_spec(domain: Domain, index: u32) -> Seq<char> {
    if domain == Domain::Role {
        snake(member_text(domain, index))
    } else {
        member_text(domain, index)
    }
}

/// The language's name for a member.
pub fn member_str(domain: Domain, index: u32) -> (s: &'static str)
    ensures
        s@ == member_text(domain, index),
{
    if index < env::member_total(domain) {
        env::member_name(domain, index)
    } else {
        proof {
            reveal_strlit("");
        }
        ""
    }
}

/// A member in the engine's spelling.
pub fn wire_member(domain: Domain, index: u32) -> (s: String)
    ensures
        s@ == wire_spec(domain, index),
{
    let name = member_str(domain, index);
    if domain != Domain::Role {
        return String::from_str(name);
    }
    let n = name.unicode_len();
    let mut out = String::new();
    let mut i: usize = 0;
    proof {
        reveal_strlit("");
        assert(name@.take(0) =~= Seq::<char>::empty());
    }
    while i < n
        invariant
            n == name@.len(),
            i <= n,
            out@ == snake(name@.take(i as int)),
        decreases n - i,
    {
        proof {
            reveal_strlit("_");
        }
        let c = name.get_char(i);
        let ghost before = out@;
        if c == '-' {
            out.append("_");
        } else {
            out.append(name.substring_char(i, i + 1));
            assert(name@.subrange(i as int, i as int + 1) =~= seq![c]);
        }
        assert(snake(name@.take(i as int + 1)) =~= snake(name@.take(i as int)) + seq![
            if c == '-' {
                '_'
            } else {
                c
            },
        ]);
        i += 1;
    }
    assert(name@.take(n as int) =~= name@);
    out
}


/// An expression as expr source, inside a position that binds as tightly as
/// `parent`.
///
/// Parenthesised by precedence rather than everywhere: this output is read by
/// people debugging a rule set. expr has no bindings, so a binding is
/// replaced by what it was bound to; `bound` is how many of the rule's
/// bindings it may still refer to, since a binding may only refer to earlier
/// ones.
pub open spec fn expr_text(e: IrExpr, lets: Seq<IrExpr>, bound: int, parent: int) -> Seq<char>
    decreases bound, e,
{
    match e.kind {
        IrExprKind::Int(n) => int_text(n as int),
        IrExprKind::Float(f) => f@,
        IrExprKind::Bool(b) => if b {
            "true"@
        } else {
            "false"@
        },
        IrExprKind::Member(d, i) => "\""@ + wire_spec(d, i) + "\""@,
        IrExprKind::Binding(j) => if j < bound {
            expr_text(lets[j as int], lets, j as int, parent)
        } else {
            Seq::empty()
        },
        IrExprKind::Predicate(id, args) => {
            let call = go_name_spec(predicate_name(id)) + "("@ + args_text(args@, lets, bound) + ")"@;
            // A collection can only ever be counted, so it is always `len(…)`.
            if predicate_ret(id) == Type::Collection {
                "len("@ + call + ")"@
            } else {
                call
            }
        },
        IrExprKind::Unary(op, x) => match op {
            // expr has no `exists`; an optional is compared against nil.
            UnOp::Exists => {
                let inner = expr_text(*x, lets, bound, PREC_ATOM as int) + " != nil"@;
                if (PREC_CMP as int) < parent {
                    "("@ + inner + ")"@
                } else {
                    inner
                }
            },
            UnOp::Not => "!"@ + expr_text(*x, lets, bound, PREC_UNARY as int),
            UnOp::Neg => "-"@ + expr_text(*x, lets, bound, PREC_UNARY as int),
        },
        IrExprKind::Binary(op, l, r) => {
            let p = precedence_spec(op) as int;
            // The right operand binds one tighter, so `a - (b - c)` keeps its
            // parentheses while `(a - b) - c` loses them.
            let inner = expr_text(*l, lets, bound, p) + " "@ + operator_spec(op) + " "@ + expr_text(
                *r,
                lets,
                bound,
                p + 1,
            );
            if p < parent {
                "("@ + inner + ")"@
            } else {
                inner
            }
        },
        IrExprKind::Param(_) => Seq::empty(),
        IrExprKind::Builtin(_, _) => Seq::empty(),
    }
}

/// A predicate's arguments, comma separated.
pub open spec fn args_text(args: Seq<IrExpr>, lets: Seq<IrExpr>, bound: int) -> Seq<char>
    decreases bound, args,
{
    if args.len() == 0 {
        Seq::empty()
    } else if args.len() == 1 {
        expr_text(args[0], lets, bound, PREC_ATOM as int)
    } else {
        args_text(args.subrange(0, args.len() - 1), lets, bound) + ","@ + expr_text(
            args[args.len() - 1],
            lets,
            bound,
            PREC_ATOM as int,
        )
    }
}

/// Renders one expression as expr source.
fn emit_expr(e: &IrExpr, lets: &Vec<IrExpr>, bound: usize, parent: u8, out: &mut String)
    requires
        bound <= lets@.len(),
    ensures
        final(out)@ == old(out)@ + expr_text(*e, lets@, bound as int, parent as int),
    decreases bound, e, 1nat,
{
    proof {
        reveal_strlit("true");
        reveal_strlit("false");
    }
    match &e.kind {
        IrExprKind::Int(n) => push_int(out, *n),
        IrExprKind::Float(f) => out.append(f.as_str()),
        IrExprKind::Bool(b) => out.append(
            if *b {
                "true"
            } else {
                "false"
            },
        ),
        IrExprKind::Member(d, i) => {
            let ghost before = out@;
            out.append("\"");
            out.append(wire_member(*d, *i).as_str());
            out.append("\"");
            assert(out@ =~= before + ("\""@ + wire_spec(*d, *i) + "\""@));
        },
        IrExprKind::Binding(slot) => {
            if (*slot as usize) < bound {
                emit_expr(&lets[*slot as usize], lets, *slot as usize, parent, out);
            } else {
                assert(out@ =~= old(out)@ + Seq::empty());
            }
        },
        IrExprKind::Predicate(..) => emit_predicate(e, lets, bound, out),
        IrExprKind::Unary(..) => emit_unary(e, lets, bound, parent, out),
        IrExprKind::Binary(..) => emit_binary(e, lets, bound, parent, out),
        IrExprKind::Param(_) | IrExprKind::Builtin(..) => {
            assert(out@ =~= old(out)@ + Seq::empty());
        },
    }
}

#[verifier::loop_isolation(false)]
fn emit_predicate(e: &IrExpr, lets: &Vec<IrExpr>, bound: usize, out: &mut String)
    requires
        bound <= lets@.len(),
        e.kind is Predicate,
    ensures
        final(out)@ == old(out)@ + expr_text(*e, lets@, bound as int, 0),
    decreases bound, e, 0nat,
{
    let (id, args) = match &e.kind {
        IrExprKind::Predicate(id, args) => (id, args),
        _ => {
            return;
        },
    };
    let ghost before = out@;
    let collection = matches!(predicate_ret_exec(*id), Type::Collection);
    if collection {
        out.append("len(");
    }
    out.append(go_name(id.name()).as_str());
    out.append("(");
    let ghost start = out@;
    let mut i: usize = 0;
    while i < args.len()
        invariant
            i <= args@.len(),
            out@ == start + args_text(args@.subrange(0, i as int), lets@, bound as int),
        decreases args@.len() - i,
    {
        assert(args@.subrange(0, i as int + 1).subrange(0, i as int) =~= args@.subrange(0, i as int));
        assert(args@.subrange(0, i as int + 1)[i as int] == args@[i as int]);
        if i > 0 {
            out.append(",");
        }
        emit_expr(&args[i], lets, bound, PREC_ATOM, out);
        proof {
            if i == 0 {
                assert(out@ =~= start + args_text(args@.subrange(0, 1), lets@, bound as int));
            } else {
                assert(out@ =~= start + args_text(args@.subrange(0, i as int + 1), lets@, bound as int));
            }
        }
        i += 1;
    }
    assert(args@.subrange(0, args@.len() as int) =~= args@);
    out.append(")");
    if collection {
        out.append(")");
    }
    proof {
        let call = go_name_spec(predicate_name(*id)) + "("@ + args_text(args@, lets@, bound as int) + ")"@;
        if collection {
            assert(out@ =~= before + ("len("@ + call + ")"@));
        } else {
            assert(out@ =~= before + call);
        }
    }
}

fn emit_unary(e: &IrExpr, lets: &Vec<IrExpr>, bound: usize, parent: u8, out: &mut String)
    requires
        bound <= lets@.len(),
        e.kind is Unary,
    ensures
        final(out)@ == old(out)@ + expr_text(*e, lets@, bound as int, parent as int),
    decreases bound, e, 0nat,
{
    let (op, operand) = match &e.kind {
        IrExprKind::Unary(op, operand) => (op, operand),
        _ => {
            return;
        },
    };
    let ghost before = out@;
    match op {
        UnOp::Exists => {
            let wrap = PREC_CMP < parent;
            if wrap {
                out.append("(");
            }
            emit_expr(operand, lets, bound, PREC_ATOM, out);
            out.append(" != nil");
            if wrap {
                out.append(")");
            }
            proof {
                let inner = expr_text(**operand, lets@, bound as int, PREC_ATOM as int) + " != nil"@;
                if wrap {
                    assert(out@ =~= before + ("("@ + inner + ")"@));
                } else {
                    assert(out@ =~= before + inner);
                }
            }
        },
        UnOp::Not => {
            out.append("!");
            emit_expr(operand, lets, bound, PREC_UNARY, out);
            assert(out@ =~= before + ("!"@ + expr_text(**operand, lets@, bound as int, PREC_UNARY as int)));
        },
        UnOp::Neg => {
            out.append("-");
            emit_expr(operand, lets, bound, PREC_UNARY, out);
            assert(out@ =~= before + ("-"@ + expr_text(**operand, lets@, bound as int, PREC_UNARY as int)));
        },
    }
}

fn emit_binary(e: &IrExpr, lets: &Vec<IrExpr>, bound: usize, parent: u8, out: &mut String)
    requires
        bound <= lets@.len(),
        e.kind is Binary,
    ensures
        final(out)@ == old(out)@ + expr_text(*e, lets@, bound as int, parent as int),
    decreases bound, e, 0nat,
{
    let (op, l, r) = match &e.kind {
        IrExprKind::Binary(op, l, r) => (op, l, r),
        _ => {
            return;
        },
    };
    let ghost before = out@;
    let prec = precedence(*op);
    let wrap = prec < parent;
    if wrap {
        out.append("(");
    }
    emit_expr(l, lets, bound, prec, out);
    out.append(" ");
    out.append(operator(*op));
    out.append(" ");
    emit_expr(r, lets, bound, prec + 1, out);
    if wrap {
        out.append(")");
    }
    proof {
        let p = prec as int;
        let inner = expr_text(**l, lets@, bound as int, p) + " "@ + operator_spec(*op) + " "@ + expr_text(
            **r,
            lets@,
            bound as int,
            p + 1,
        );
        if wrap {
            assert(out@ =~= before + ("("@ + inner + ")"@));
        } else {
            assert(out@ =~= before + inner);
        }
    }
}

fn predicate_ret_exec(id: env::Predicate) -> (t: Type)
    ensures
        t == predicate_ret(id),
{
    id.signature().ret
}

/// A rule's condition: its conjuncts joined by `&&`, or `true` when it has
/// none, since expr will not compile an empty condition.
pub open spec fn condition_text(r: IrRule) -> Seq<char> {
    if r.requires@.len() == 0 {
        "true"@
    } else {
        joined(
            r.requires@.map_values(|c: IrExpr| expr_text(c, r.lets@, r.lets@.len() as int, PREC_AND as int)),
            " && "@,
        )
    }
}

/// An action argument in the language's own spelling, since the engine looks
/// an action up by this text rather than evaluating it.
pub open spec fn bare_text(e: IrExpr) -> Seq<char> {
    match e.kind {
        IrExprKind::Int(n) => int_text(n as int),
        IrExprKind::Float(f) => f@,
        IrExprKind::Bool(b) => if b {
            "true"@
        } else {
            "false"@
        },
        IrExprKind::Member(d, i) => member_text(d, i),
        _ => Seq::empty(),
    }
}

/// An action's name, or nothing for an id outside the table.
pub open spec fn action_name_text(id: u32) -> Seq<char> {
    if id < action_count() {
        action_spec(id as int)
    } else {
        Seq::empty()
    }
}

/// A category's name, or nothing for an id outside the table.
pub open spec fn category_text(id: u32) -> Seq<char> {
    if id < category_count() {
        category_spec(id as int)
    } else {
        Seq::empty()
    }
}

/// The action as the engine spells it: the name, with its arguments when it is
/// built by a factory.
pub open spec fn action_text(a: IrAction) -> Seq<char> {
    if a.args@.len() == 0 {
        action_name_text(a.id.0)
    } else {
        action_name_text(a.id.0) + "("@ + joined(a.args@.map_values(|x: IrExpr| bare_text(x)), ", "@)
            + ")"@
    }
}

/// One emitted rule says what its rule does.
pub open spec fn source_matches(r: IrRule, s: RuleSource) -> bool {
    &&& s.name@ == r.name@
    &&& r.priority.kind == IrExprKind::Int(s.priority)
    &&& s.category@ == category_text(r.category.0)
    &&& s.exclusive == r.exclusive
    &&& match (r.because, s.because) {
        (Some(a), Some(b)) => a@ == b@,
        (None, None) => true,
        _ => false,
    }
    &&& s.action@ == action_text(r.action)
    &&& s.condition@ == condition_text(r)
}

/// One emitted rule per rule, in order.
pub open spec fn emitted(rules: Seq<IrRule>, out: Seq<RuleSource>) -> bool {
    &&& out.len() == rules.len()
    &&& forall|k: int| 0 <= k < rules.len() ==> #[trigger] source_matches(rules[k], out[k])
}

pub fn category_str(id: u32) -> (s: &'static str)
    ensures
        s@ == category_text(id),
{
    if id < env::category_total() {
        env::category_name(id)
    } else {
        proof {
            reveal_strlit("");
        }
        ""
    }
}

pub fn action_str(id: u32) -> (s: &'static str)
    ensures
        s@ == action_name_text(id),
{
    if id < env::action_total() {
        env::action_name(id)
    } else {
        proof {
            reveal_strlit("");
        }
        ""
    }
}

fn push_bare(e: &IrExpr, out: &mut String)
    ensures
        final(out)@ == old(out)@ + bare_text(*e),
{
    proof {
        reveal_strlit("true");
        reveal_strlit("false");
    }
    match &e.kind {
        IrExprKind::Int(n) => push_int(out, *n),
        IrExprKind::Float(f) => out.append(f.as_str()),
        IrExprKind::Bool(b) => out.append(
            if *b {
                "true"
            } else {
                "false"
            },
        ),
        IrExprKind::Member(d, i) => out.append(member_str(*d, *i)),
        _ => {
            assert(out@ =~= old(out)@ + Seq::empty());
        },
    }
}

fn emit_action(a: &IrAction) -> (s: String)
    ensures
        s@ == action_text(*a),
{
    let mut out = String::from_str(action_str(a.id.0));
    if a.args.len() == 0 {
        return out;
    }
    out.append("(");
    let ghost start = out@;
    let ghost parts = a.args@.map_values(|x: IrExpr| bare_text(x));
    let mut i: usize = 0;
    while i < a.args.len()
        invariant
            i <= a.args@.len(),
            parts == a.args@.map_values(|x: IrExpr| bare_text(x)),
            out@ == start + joined(parts.take(i as int), ", "@),
        decreases a.args@.len() - i,
    {
        let ghost here = out@;
        assert(parts.take(i as int + 1).drop_last() =~= parts.take(i as int));
        assert(parts.take(i as int + 1).last() == bare_text(a.args@[i as int]));
        if i > 0 {
            out.append(", ");
        }
        push_bare(&a.args[i], &mut out);
        proof {
            if i == 0 {
                assert(parts.take(1).len() == 1);
                assert(out@ =~= start + joined(parts.take(1), ", "@));
            } else {
                assert(out@ =~= start + joined(parts.take(i as int + 1), ", "@));
            }
        }
        i += 1;
    }
    assert(parts.take(a.args@.len() as int) =~= parts);
    out.append(")");
    out
}

fn emit_condition(r: &IrRule) -> (s: String)
    ensures
        s@ == condition_text(*r),
{
    if r.requires.len() == 0 {
        return String::from_str("true");
    }
    let ghost parts = r.requires@.map_values(
        |c: IrExpr| expr_text(c, r.lets@, r.lets@.len() as int, PREC_AND as int),
    );
    let mut out = String::new();
    proof {
        reveal_strlit("");
    }
    let mut i: usize = 0;
    while i < r.requires.len()
        invariant
            i <= r.requires@.len(),
            parts == r.requires@.map_values(
                |c: IrExpr| expr_text(c, r.lets@, r.lets@.len() as int, PREC_AND as int),
            ),
            out@ == joined(parts.take(i as int), " && "@),
        decreases r.requires@.len() - i,
    {
        assert(parts.take(i as int + 1).drop_last() =~= parts.take(i as int));
        if i > 0 {
            out.append(" && ");
        }
        emit_expr(&r.requires[i], &r.lets, r.lets.len(), PREC_AND, &mut out);
        proof {
            if i == 0 {
                assert(parts.take(1).len() == 1);
                assert(out@ =~= joined(parts.take(1), " && "@));
            } else {
                assert(out@ =~= joined(parts.take(i as int + 1), " && "@));
            }
        }
        i += 1;
    }
    assert(parts.take(r.requires@.len() as int) =~= parts);
    out
}

fn emit_rule(r: &IrRule) -> (s: RuleSource)
    requires
        emittable(*r),
    ensures
        source_matches(*r, s),
{
    let priority = match &r.priority.kind {
        IrExprKind::Int(n) => *n,
        _ => 0,
    };
    let because = match &r.because {
        Some(b) => Some(b.clone()),
        None => None,
    };
    RuleSource {
        name: r.name.clone(),
        priority,
        category: String::from_str(category_str(r.category.0)),
        exclusive: r.exclusive,
        because,
        action: emit_action(&r.action),
        condition: emit_condition(r),
    }
}

/// The build artifact for a rule set whose doctrine is folded in.
pub fn emit(ir: &Ir) -> (out: Vec<RuleSource>)
    requires
        emittable_ir(*ir),
    ensures
        emitted(ir.rules@, out@),
{
    let mut out: Vec<RuleSource> = Vec::new();
    let mut k: usize = 0;
    while k < ir.rules.len()
        invariant
            k <= ir.rules@.len(),
            emittable_ir(*ir),
            out@.len() == k,
            forall|j: int| 0 <= j < k ==> #[trigger] source_matches(ir.rules@[j], out@[j]),
        decreases ir.rules@.len() - k,
    {
        out.push(emit_rule(&ir.rules[k]));
        k += 1;
    }
    out
}

} // verus!
