//! Text to tokens.
//!
//! Collects errors rather than bailing, so one bad character does not hide the
//! rest of the file.
//!
//! The kebab-identifier rule — `ground-defense` is one token, `size - 1` is
//! three — is that a `-` continues an identifier only when a letter follows it.
//!
//! The specification is the token grammar itself, read by maximal munch:
//! `scan_end`, `scan_token` and `scan_error` say what the token starting at an
//! offset is, and `lex_from` strings those together to the end of the input.
use crate::diag::{Diagnostic, Severity, Span};
use crate::token::{Tag, Token, TokenKind, TokenView, keyword_spec, kind_view, tag_of};
use vstd::prelude::*;
use vstd::string::*;
use vstd::utf8::*;

verus! {

broadcast use vstd::utf8::encode_utf8_decode_utf8;

pub open spec fn is_digit(c: u8) -> bool {
    48 <= c <= 57
}

pub open spec fn is_alpha(c: u8) -> bool {
    (65 <= c <= 90) || (97 <= c <= 122)
}

pub open spec fn is_alnum(c: u8) -> bool {
    is_digit(c) || is_alpha(c)
}

pub open spec fn is_space(c: u8) -> bool {
    c == 32 || c == 9 || c == 13 || c == 10
}

/// Where an identifier that has reached `i` ends: letters and digits continue
/// it, and so does a `-` immediately followed by a letter.
pub open spec fn ident_end(b: Seq<u8>, i: int) -> int
    decreases b.len() - i,
{
    if 0 <= i < b.len() && (is_alnum(b[i]) || (b[i] == 45 && i + 1 < b.len() && is_alpha(
        b[i + 1],
    ))) {
        ident_end(b, i + 1)
    } else {
        i
    }
}

/// The end of the run of digits starting at `i`.
pub open spec fn digits_end(b: Seq<u8>, i: int) -> int
    decreases b.len() - i,
{
    if 0 <= i < b.len() && is_digit(b[i]) {
        digits_end(b, i + 1)
    } else {
        i
    }
}

/// A `.` is part of a number only when a digit follows it.
pub open spec fn has_fraction(b: Seq<u8>, pos: int) -> bool {
    let e = digits_end(b, pos);
    e + 1 < b.len() && b[e] == 46 && is_digit(b[e + 1])
}

pub open spec fn number_end(b: Seq<u8>, pos: int) -> int {
    if has_fraction(b, pos) {
        digits_end(b, digits_end(b, pos) + 1)
    } else {
        digits_end(b, pos)
    }
}

/// The first `"` at or after `i`, or the end of the input.
pub open spec fn quote_end(b: Seq<u8>, i: int) -> int
    decreases b.len() - i,
{
    if 0 <= i < b.len() && b[i] != 34 {
        quote_end(b, i + 1)
    } else {
        i
    }
}

/// The value of the decimal digits `b[s..e]`.
pub open spec fn decimal_value(b: Seq<u8>, s: int, e: int) -> nat
    decreases e - s,
{
    if e <= s {
        0
    } else {
        decimal_value(b, s, e - 1) * 10 + (b[e - 1] - 48) as nat
    }
}

/// How many bytes the UTF-8 character starting with `c` takes.
pub open spec fn char_width(c: u8) -> int {
    if c < 0x80 {
        1
    } else if c <= 0xdf {
        2
    } else if c <= 0xef {
        3
    } else {
        4
    }
}

/// The characters the bytes `b[s..e]` encode.
pub open spec fn text_of(b: Seq<u8>, s: int, e: int) -> Seq<char> {
    decode_utf8(b.subrange(s, e))
}

/// `==`, `!=`, `<=` and `>=`, which must win over their first character.
pub open spec fn is_pair(b: Seq<u8>, pos: int) -> bool {
    &&& pos + 1 < b.len()
    &&& b[pos + 1] == 61
    &&& (b[pos] == 61 || b[pos] == 33 || b[pos] == 60 || b[pos] == 62)
}

pub open spec fn pair_token(c: u8) -> TokenView {
    if c == 61 {
        TokenView::EqEq
    } else if c == 33 {
        TokenView::NotEq
    } else if c == 60 {
        TokenView::LtEq
    } else {
        TokenView::GtEq
    }
}

/// The one-byte punctuation and operators.
pub open spec fn single_token(c: u8) -> Option<TokenView> {
    if c == 40 {
        Some(TokenView::LParen)
    } else if c == 41 {
        Some(TokenView::RParen)
    } else if c == 123 {
        Some(TokenView::LBrace)
    } else if c == 125 {
        Some(TokenView::RBrace)
    } else if c == 44 {
        Some(TokenView::Comma)
    } else if c == 58 {
        Some(TokenView::Colon)
    } else if c == 43 {
        Some(TokenView::Plus)
    } else if c == 45 {
        Some(TokenView::Minus)
    } else if c == 42 {
        Some(TokenView::Asterisk)
    } else if c == 47 {
        Some(TokenView::Slash)
    } else if c == 60 {
        Some(TokenView::Lt)
    } else if c == 62 {
        Some(TokenView::Gt)
    } else if c == 61 {
        Some(TokenView::Eq)
    } else {
        None
    }
}

/// Where the lexeme starting at `pos` ends.
pub open spec fn scan_end(b: Seq<u8>, pos: int) -> int {
    let c = b[pos];
    if is_pair(b, pos) {
        pos + 2
    } else if is_space(c) || single_token(c) is Some {
        pos + 1
    } else if is_digit(c) {
        number_end(b, pos)
    } else if is_alpha(c) {
        ident_end(b, pos + 1)
    } else if c == 34 {
        let q = quote_end(b, pos + 1);
        if q < b.len() {
            q + 1
        } else {
            q
        }
    } else {
        pos + char_width(c)
    }
}

/// The token the lexeme starting at `pos` produces, if any. Whitespace and an
/// unexpected character produce none; an oversized integer produces a zero.
pub open spec fn scan_token(b: Seq<u8>, pos: int) -> Option<TokenView> {
    let c = b[pos];
    let e = scan_end(b, pos);
    if is_pair(b, pos) {
        Some(pair_token(c))
    } else if is_space(c) {
        None
    } else if single_token(c) is Some {
        single_token(c)
    } else if is_digit(c) {
        if has_fraction(b, pos) {
            Some(TokenView::Float(text_of(b, pos, e)))
        } else if decimal_value(b, pos, e) <= i64::MAX {
            Some(TokenView::Number(decimal_value(b, pos, e) as int))
        } else {
            Some(TokenView::Number(0))
        }
    } else if is_alpha(c) {
        match keyword_spec(text_of(b, pos, e)) {
            Some(k) => Some(k),
            None => Some(TokenView::Identifier(text_of(b, pos, e))),
        }
    } else if c == 34 {
        Some(TokenView::Str(text_of(b, pos + 1, quote_end(b, pos + 1))))
    } else {
        None
    }
}

/// The diagnostic the lexeme starting at `pos` produces, if any.
pub open spec fn scan_error(b: Seq<u8>, pos: int) -> Option<Seq<char>> {
    let c = b[pos];
    let e = scan_end(b, pos);
    if is_pair(b, pos) || is_space(c) || single_token(c) is Some || is_alpha(c) {
        None
    } else if is_digit(c) {
        if !has_fraction(b, pos) && decimal_value(b, pos, e) > i64::MAX {
            Some("number `"@ + text_of(b, pos, e) + "` does not fit in a 64-bit integer"@)
        } else {
            None
        }
    } else if c == 34 {
        if quote_end(b, pos + 1) < b.len() {
            None
        } else {
            Some("unterminated string literal"@)
        }
    } else {
        Some("unexpected character `"@ + text_of(b, pos, e) + "`"@)
    }
}

/// A token as a specification sees it: its kind and its byte range.
pub type TokenSpec = (TokenView, int, int);

/// A diagnostic as a specification sees it: its message and its byte range.
pub type DiagSpec = (Seq<char>, int, int);

/// The tokens and diagnostics from `pos` to the end of `b`, with every offset
/// shifted by `base`. The last token is always an empty `Eof` at the end.
pub open spec fn lex_from(b: Seq<u8>, pos: int, base: int) -> (Seq<TokenSpec>, Seq<DiagSpec>)
    decreases b.len() - pos,
{
    if pos < 0 || pos >= b.len() {
        (seq![(TokenView::Eof, base + b.len(), base + b.len())], Seq::empty())
    } else {
        let e = scan_end(b, pos);
        if pos < e <= b.len() {
            let rest = lex_from(b, e, base);
            let toks = match scan_token(b, pos) {
                Some(k) => seq![(k, base + pos, base + e)] + rest.0,
                None => rest.0,
            };
            let diags = match scan_error(b, pos) {
                Some(m) => seq![(m, base + pos, base + e)] + rest.1,
                None => rest.1,
            };
            (toks, diags)
        } else {
            (Seq::empty(), Seq::empty())
        }
    }
}

pub open spec fn token_view(t: Token) -> TokenSpec {
    (kind_view(t.kind), t.span.start as int, t.span.end as int)
}

pub open spec fn token_views(ts: Seq<Token>) -> Seq<TokenSpec> {
    ts.map_values(|t: Token| token_view(t))
}

pub open spec fn diag_view(d: Diagnostic) -> DiagSpec {
    (d.message@, d.span.start as int, d.span.end as int)
}

pub open spec fn diag_views(ds: Seq<Diagnostic>) -> Seq<DiagSpec> {
    ds.map_values(|d: Diagnostic| diag_view(d))
}

/// Every diagnostic here is an error.
pub open spec fn all_errors(ds: Seq<Diagnostic>) -> bool {
    forall|i: int| 0 <= i < ds.len() ==> (#[trigger] ds[i]).severity == Severity::Error
}

// ---- facts about the scanners ----

proof fn lemma_ident_end(b: Seq<u8>, i: int)
    requires
        0 <= i <= b.len(),
    ensures
        i <= ident_end(b, i) <= b.len(),
        forall|k: int| i <= k < ident_end(b, i) ==> is_alnum(b[k]) || b[k] == 45,
        ident_end(b, i) > i ==> is_alnum(b[ident_end(b, i) - 1]),
    decreases b.len() - i,
{
    if 0 <= i < b.len() && (is_alnum(b[i]) || (b[i] == 45 && i + 1 < b.len() && is_alpha(
        b[i + 1],
    ))) {
        lemma_ident_end(b, i + 1);
        if !is_alnum(b[i]) {
            assert(ident_end(b, i + 1) == ident_end(b, i + 2));
            lemma_ident_end(b, i + 2);
        }
    }
}

proof fn lemma_digits_end(b: Seq<u8>, i: int)
    requires
        0 <= i <= b.len(),
    ensures
        i <= digits_end(b, i) <= b.len(),
        forall|k: int| i <= k < digits_end(b, i) ==> is_digit(b[k]),
    decreases b.len() - i,
{
    if 0 <= i < b.len() && is_digit(b[i]) {
        lemma_digits_end(b, i + 1);
    }
}

proof fn lemma_quote_end(b: Seq<u8>, i: int)
    requires
        0 <= i <= b.len(),
    ensures
        i <= quote_end(b, i) <= b.len(),
        quote_end(b, i) < b.len() ==> b[quote_end(b, i)] == 34,
        forall|k: int| i <= k < quote_end(b, i) ==> b[k] != 34,
    decreases b.len() - i,
{
    if 0 <= i < b.len() && b[i] != 34 {
        lemma_quote_end(b, i + 1);
    }
}

proof fn lemma_decimal_grows(b: Seq<u8>, s: int, e: int)
    requires
        s < e,
        forall|k: int| s <= k < e ==> is_digit(b[k]),
    ensures
        decimal_value(b, s, e) >= decimal_value(b, s, e - 1),
{
}

/// In valid UTF-8, the byte after an ASCII byte that starts a character starts
/// one too.
proof fn lemma_ascii_boundary_step(b: Seq<u8>, j: int)
    requires
        valid_utf8(b),
        0 <= j < b.len(),
        is_char_boundary(b, j),
        b[j] < 0x80,
    ensures
        is_char_boundary(b, j + 1),
    decreases b.len(),
{
    let l = length_of_first_scalar(b);
    let rest = pop_first_scalar(b);
    if j == 0 {
        assert(l == 1);
        assert(is_char_boundary(rest, 0));
    } else {
        assert(is_char_boundary(rest, j - l));
        assert(rest[j - l] == b[j]);
        lemma_ascii_boundary_step(rest, j - l);
    }
}

/// A byte right after an ASCII byte starts a character.
proof fn lemma_after_ascii(b: Seq<u8>, i: int)
    requires
        valid_utf8(b),
        1 <= i <= b.len(),
        b[i - 1] < 0x80,
    ensures
        is_char_boundary(b, i),
{
    is_char_boundary_iff_not_is_continuation_byte(b, i - 1);
    lemma_ascii_boundary_step(b, i - 1);
}

/// A whole character further on from a character boundary is another one.
proof fn lemma_char_step(b: Seq<u8>, j: int)
    requires
        valid_utf8(b),
        0 <= j < b.len(),
        is_char_boundary(b, j),
    ensures
        j + char_width(b[j]) <= b.len(),
        is_char_boundary(b, j + char_width(b[j])),
    decreases b.len(),
{
    let l = length_of_first_scalar(b);
    let rest = pop_first_scalar(b);
    if j == 0 {
        assert(is_char_boundary(rest, 0));
        assert(char_width(b[0]) == l);
    } else {
        assert(is_char_boundary(rest, j - l));
        assert(rest[j - l] == b[j]);
        lemma_char_step(rest, j - l);
    }
}

/// `b[s..e]` as a string slice, for `s` and `e` on character boundaries.
fn substr<'a>(src: &'a str, s: usize, e: usize) -> (r: &'a str)
    requires
        s <= e <= src.spec_bytes().len(),
        is_char_boundary(src.spec_bytes(), s as int),
        is_char_boundary(src.spec_bytes(), e as int),
    ensures
        r.spec_bytes() == src.spec_bytes().subrange(s as int, e as int),
        r@ == text_of(src.spec_bytes(), s as int, e as int),
{
    let ghost b = src.spec_bytes();
    proof {
        encode_utf8_valid_utf8(src@);
        valid_utf8_split(b, e as int);
        let h = b.subrange(0, e as int);
        if s < e {
            is_char_boundary_iff_not_is_continuation_byte(b, s as int);
            is_char_boundary_iff_not_is_continuation_byte(h, s as int);
        } else {
            is_char_boundary_start_end_of_seq(h);
        }
    }
    let (head, _) = src.split_at(e);
    let (_, r) = head.split_at(s);
    proof {
        assert(r.spec_bytes() =~= b.subrange(s as int, e as int));
        encode_utf8_decode_utf8(r@);
    }
    r
}

/// One lexeme: where it ends, the token it makes, and what is wrong with it.
fn scan(src: &str, bytes: &[u8], pos: usize) -> (r: (usize, Option<TokenKind>, Option<String>))
    requires
        bytes@ == src.spec_bytes(),
        pos < bytes@.len(),
        is_char_boundary(bytes@, pos as int),
    ensures
        r.0 == scan_end(bytes@, pos as int),
        pos < r.0 <= bytes@.len(),
        is_char_boundary(bytes@, r.0 as int),
        match (r.1, scan_token(bytes@, pos as int)) {
            (Some(k), Some(v)) => kind_view(k) == v,
            (None, None) => true,
            _ => false,
        },
        match (r.2, scan_error(bytes@, pos as int)) {
            (Some(m), Some(v)) => m@ == v,
            (None, None) => true,
            _ => false,
        },
{
    let ghost b = bytes@;
    proof {
        encode_utf8_valid_utf8(src@);
        is_char_boundary_start_end_of_seq(b);
    }
    let len = bytes.len();
    let c = bytes[pos];
    if pos + 1 < len && bytes[pos + 1] == 61u8 && (c == 61u8 || c == 33u8 || c == 60u8 || c
        == 62u8) {
        proof {
            lemma_after_ascii(b, pos + 2);
        }
        let k = if c == 61u8 {
            TokenKind::EqEq
        } else if c == 33u8 {
            TokenKind::NotEq
        } else if c == 60u8 {
            TokenKind::LtEq
        } else {
            TokenKind::GtEq
        };
        return (pos + 2, Some(k), None);
    }
    if c == 32u8 || c == 9u8 || c == 13u8 || c == 10u8 {
        proof {
            lemma_after_ascii(b, pos + 1);
        }
        return (pos + 1, None, None);
    }
    let single = if c == 40u8 {
        Some(TokenKind::LParen)
    } else if c == 41u8 {
        Some(TokenKind::RParen)
    } else if c == 123u8 {
        Some(TokenKind::LBrace)
    } else if c == 125u8 {
        Some(TokenKind::RBrace)
    } else if c == 44u8 {
        Some(TokenKind::Comma)
    } else if c == 58u8 {
        Some(TokenKind::Colon)
    } else if c == 43u8 {
        Some(TokenKind::Plus)
    } else if c == 45u8 {
        Some(TokenKind::Minus)
    } else if c == 42u8 {
        Some(TokenKind::Asterisk)
    } else if c == 47u8 {
        Some(TokenKind::Slash)
    } else if c == 60u8 {
        Some(TokenKind::Lt)
    } else if c == 62u8 {
        Some(TokenKind::Gt)
    } else if c == 61u8 {
        Some(TokenKind::Eq)
    } else {
        None
    };
    if single.is_some() {
        proof {
            lemma_after_ascii(b, pos + 1);
        }
        return (pos + 1, single, None);
    }
    if 48u8 <= c && c <= 57u8 {
        return scan_number(src, bytes, pos);
    }
    if (65u8 <= c && c <= 90u8) || (97u8 <= c && c <= 122u8) {
        // Two bytes of lookahead: a `-` stays only when a letter follows it.
        let mut e = pos + 1;
        proof {
            lemma_ident_end(b, pos + 1);
        }
        while e < len && (is_alnum_byte(bytes[e]) || (bytes[e] == 45u8 && e + 1 < len
            && is_alpha_byte(bytes[e + 1])))
            invariant
                bytes@ == b,
                len == b.len(),
                pos + 1 <= e <= b.len(),
                ident_end(b, e as int) == ident_end(b, pos + 1),
            decreases len - e,
        {
            e += 1;
        }
        proof {
            lemma_ident_end(b, pos + 1);
            if e > pos + 1 {
                assert(is_alnum(b[e - 1]));
            }
            lemma_after_ascii(b, e as int);
        }
        let text = substr(src, pos, e);
        let kind = match TokenKind::keyword(text) {
            Some(k) => k,
            None => TokenKind::Identifier(text.to_owned()),
        };
        return (e, Some(kind), None);
    }
    if c == 34u8 {
        let mut q = pos + 1;
        proof {
            lemma_quote_end(b, pos + 1);
        }
        while q < len && bytes[q] != 34u8
            invariant
                bytes@ == b,
                len == b.len(),
                pos + 1 <= q <= b.len(),
                quote_end(b, q as int) == quote_end(b, pos + 1),
            decreases len - q,
        {
            q += 1;
        }
        proof {
            lemma_after_ascii(b, pos + 1);
            if q < len {
                is_char_boundary_iff_not_is_continuation_byte(b, q as int);
                lemma_after_ascii(b, q + 1);
            }
        }
        let contents = substr(src, pos + 1, q).to_owned();
        if q < len {
            return (q + 1, Some(TokenKind::Str(contents)), None);
        } else {
            let msg = String::from_str("unterminated string literal");
            return (q, Some(TokenKind::Str(contents)), Some(msg));
        }
    }
    // Anything else is one whole character the language has no use for.
    proof {
        lemma_char_step(b, pos as int);
    }
    let w: usize = if c < 0x80u8 {
        1
    } else if c <= 0xdfu8 {
        2
    } else if c <= 0xefu8 {
        3
    } else {
        4
    };
    let text = substr(src, pos, pos + w);
    let mut msg = String::from_str("unexpected character `");
    msg.append(text);
    msg.append("`");
    proof {
        assert(msg@ =~= "unexpected character `"@ + text_of(b, pos as int, pos + w) + "`"@);
    }
    (pos + w, None, Some(msg))
}

fn is_alnum_byte(c: u8) -> (r: bool)
    ensures
        r == is_alnum(c),
{
    (48u8 <= c && c <= 57u8) || (65u8 <= c && c <= 90u8) || (97u8 <= c && c <= 122u8)
}

fn is_alpha_byte(c: u8) -> (r: bool)
    ensures
        r == is_alpha(c),
{
    (65u8 <= c && c <= 90u8) || (97u8 <= c && c <= 122u8)
}

/// An integer or a float, starting at a digit.
fn scan_number(src: &str, bytes: &[u8], pos: usize) -> (r: (usize, Option<TokenKind>, Option<String>))
    requires
        bytes@ == src.spec_bytes(),
        pos < bytes@.len(),
        is_digit(bytes@[pos as int]),
        is_char_boundary(bytes@, pos as int),
    ensures
        r.0 == scan_end(bytes@, pos as int),
        pos < r.0 <= bytes@.len(),
        is_char_boundary(bytes@, r.0 as int),
        match (r.1, scan_token(bytes@, pos as int)) {
            (Some(k), Some(v)) => kind_view(k) == v,
            (None, None) => true,
            _ => false,
        },
        match (r.2, scan_error(bytes@, pos as int)) {
            (Some(m), Some(v)) => m@ == v,
            (None, None) => true,
            _ => false,
        },
{
    let ghost b = bytes@;
    proof {
        encode_utf8_valid_utf8(src@);
        lemma_digits_end(b, pos as int);
    }
    let len = bytes.len();
    // The integer part, accumulated with overflow detection.
    let mut e = pos;
    let mut value: i64 = 0;
    let mut overflow = false;
    while e < len && 48u8 <= bytes[e] && bytes[e] <= 57u8
        invariant
            bytes@ == b,
            len == b.len(),
            pos <= e <= b.len(),
            digits_end(b, e as int) == digits_end(b, pos as int),
            forall|k: int| pos <= k < e ==> is_digit(b[k]),
            !overflow ==> value == decimal_value(b, pos as int, e as int),
            overflow ==> decimal_value(b, pos as int, e as int) > i64::MAX,
            value >= 0,
        decreases len - e,
    {
        let d = (bytes[e] - 48u8) as i64;
        proof {
            lemma_decimal_grows(b, pos as int, e + 1);
        }
        if !overflow {
            match value.checked_mul(10) {
                Some(m) => match m.checked_add(d) {
                    Some(v) => {
                        value = v;
                    },
                    None => {
                        overflow = true;
                    },
                },
                None => {
                    overflow = true;
                },
            }
        }
        e += 1;
    }
    let int_end = e;
    let fraction = int_end < len && len - int_end > 1 && bytes[int_end] == 46u8 && 48u8 <= bytes[int_end + 1]
        && bytes[int_end + 1] <= 57u8;
    if fraction {
        proof {
            lemma_digits_end(b, int_end + 1);
        }
        let mut f = int_end + 1;
        while f < len && 48u8 <= bytes[f] && bytes[f] <= 57u8
            invariant
                bytes@ == b,
                len == b.len(),
                int_end + 1 <= f <= b.len(),
                digits_end(b, f as int) == digits_end(b, int_end + 1),
                f > int_end + 1 ==> is_digit(b[f - 1]),
            decreases len - f,
        {
            f += 1;
        }
        proof {
            lemma_after_ascii(b, f as int);
        }
        let text = substr(src, pos, f).to_owned();
        return (f, Some(TokenKind::Float(text)), None);
    }
    proof {
        lemma_after_ascii(b, int_end as int);
    }
    if overflow {
        let text = substr(src, pos, int_end);
        let mut msg = String::from_str("number `");
        msg.append(text);
        msg.append("` does not fit in a 64-bit integer");
        proof {
            assert(msg@ =~= "number `"@ + text_of(b, pos as int, int_end as int)
                + "` does not fit in a 64-bit integer"@);
        }
        (int_end, Some(TokenKind::Number(0)), Some(msg))
    } else {
        (int_end, Some(TokenKind::Number(value)), None)
    }
}

/// Lexes a file whose spans start at unit offset `base`.
pub fn lex_at(source: &str, base: u32) -> (r: (Vec<Token>, Vec<Diagnostic>))
    requires
        base + source.spec_bytes().len() <= u32::MAX,
    ensures
        token_views(r.0@) == lex_from(source.spec_bytes(), 0, base as int).0,
        diag_views(r.1@) == lex_from(source.spec_bytes(), 0, base as int).1,
        all_errors(r.1@),
        r.0@.len() > 0,
        tag_of(r.0@.last().kind) == Tag::Eof,
        r.0@.last().span.start == base + source.spec_bytes().len(),
        r.0@.last().span.end == base + source.spec_bytes().len(),
{
    let bytes = source.as_bytes();
    let ghost b = bytes@;
    proof {
        encode_utf8_valid_utf8(source@);
        is_char_boundary_start_end_of_seq(b);
    }
    let mut tokens: Vec<Token> = Vec::new();
    let mut diags: Vec<Diagnostic> = Vec::new();
    let mut pos: usize = 0;
    while pos < bytes.len()
        invariant
            bytes@ == b,
            b == source.spec_bytes(),
            base + b.len() <= u32::MAX,
            pos <= b.len(),
            is_char_boundary(b, pos as int),
            token_views(tokens@) + lex_from(b, pos as int, base as int).0 == lex_from(
                b,
                0,
                base as int,
            ).0,
            diag_views(diags@) + lex_from(b, pos as int, base as int).1 == lex_from(
                b,
                0,
                base as int,
            ).1,
            all_errors(diags@),
        decreases b.len() - pos,
    {
        let (e, tok, err) = scan(source, bytes, pos);
        let span = Span { start: base + pos as u32, end: base + e as u32 };
        let ghost rest = lex_from(b, e as int, base as int);
        let ghost old_tokens = tokens@;
        let ghost old_diags = diags@;
        if let Some(m) = err {
            diags.push(Diagnostic::error(span, m));
            assert(diag_views(diags@) =~= diag_views(old_diags).push(
                diag_view(diags@.last()),
            ));
        }
        if let Some(k) = tok {
            tokens.push(Token { kind: k, span });
            assert(token_views(tokens@) =~= token_views(old_tokens).push(
                token_view(tokens@.last()),
            ));
        }
        proof {
            let here = lex_from(b, pos as int, base as int);
            match scan_token(b, pos as int) {
                Some(k) => {
                    assert(here.0 == seq![(k, base + pos, base + e)] + rest.0);
                    assert(token_views(tokens@) + rest.0 =~= token_views(old_tokens) + here.0);
                },
                None => {
                    assert(token_views(tokens@) =~= token_views(old_tokens));
                },
            }
            match scan_error(b, pos as int) {
                Some(m) => {
                    assert(diag_views(diags@) + rest.1 =~= diag_views(old_diags) + here.1);
                },
                None => {
                    assert(diag_views(diags@) =~= diag_views(old_diags));
                },
            }
        }
        pos = e;
    }
    // Empty, so an "unexpected end of file" diagnostic has somewhere to point.
    let end = base + bytes.len() as u32;
    let ghost old_tokens = tokens@;
    tokens.push(Token { kind: TokenKind::Eof, span: Span { start: end, end } });
    proof {
        assert(token_views(tokens@) =~= token_views(old_tokens).push(token_view(tokens@.last())));
        assert(diag_views(diags@) + Seq::<DiagSpec>::empty() =~= diag_views(diags@));
    }
    (tokens, diags)
}

/// Lexes one file on its own.
pub fn lex(source: &str) -> (r: (Vec<Token>, Vec<Diagnostic>))
    requires
        source.spec_bytes().len() <= u32::MAX,
    ensures
        token_views(r.0@) == lex_from(source.spec_bytes(), 0, 0).0,
        diag_views(r.1@) == lex_from(source.spec_bytes(), 0, 0).1,
        all_errors(r.1@),
        r.0@.len() > 0,
        tag_of(r.0@.last().kind) == Tag::Eof,
        r.0@.last().span.start == source.spec_bytes().len(),
        r.0@.last().span.end == source.spec_bytes().len(),
{
    lex_at(source, 0)
}

} // verus!
